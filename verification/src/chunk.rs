use vstd::prelude::*;

use crate::errors::Error;

verus! {

/// A runtime value. The core carries values as opaque 64-bit words (the bit
/// pattern of a double-precision number); arithmetic on them is supplied by
/// the embedding driver, so nothing here inspects the bits.
pub type Value = u64;

/// One-byte instruction tags, in their stable encoding order.
#[derive(Debug, PartialEq, Eq, Structural, Clone, Copy)]
pub enum OpCode {
    OpConstant,
    OpAdd,
    OpSubtract,
    OpMultiply,
    OpDivide,
    OpNegate,
    OpReturn,
}

/// The stable byte encoding of each opcode.
pub open spec fn opcode_to_byte(op: OpCode) -> u8 {
    match op {
        OpCode::OpConstant => 0,
        OpCode::OpAdd => 1,
        OpCode::OpSubtract => 2,
        OpCode::OpMultiply => 3,
        OpCode::OpDivide => 4,
        OpCode::OpNegate => 5,
        OpCode::OpReturn => 6,
    }
}

/// The opcode a byte stands for, if any.
pub open spec fn opcode_of_byte(b: u8) -> Option<OpCode> {
    if b == 0 {
        Some(OpCode::OpConstant)
    } else if b == 1 {
        Some(OpCode::OpAdd)
    } else if b == 2 {
        Some(OpCode::OpSubtract)
    } else if b == 3 {
        Some(OpCode::OpMultiply)
    } else if b == 4 {
        Some(OpCode::OpDivide)
    } else if b == 5 {
        Some(OpCode::OpNegate)
    } else if b == 6 {
        Some(OpCode::OpReturn)
    } else {
        None
    }
}

impl OpCode {
    /// The byte this opcode is written as in an instruction stream.
    pub fn to_byte(self) -> (b: u8)
        ensures
            b == opcode_to_byte(self),
    {
        match self {
            OpCode::OpConstant => 0,
            OpCode::OpAdd => 1,
            OpCode::OpSubtract => 2,
            OpCode::OpMultiply => 3,
            OpCode::OpDivide => 4,
            OpCode::OpNegate => 5,
            OpCode::OpReturn => 6,
        }
    }

    /// Total, panic-free decoding of a raw byte: an unrecognized byte is a
    /// clean decoding error, never a fault.
    pub fn from_byte(b: u8) -> (r: Result<OpCode, Error>)
        ensures
            r == (match opcode_of_byte(b) {
                Some(op) => Ok::<OpCode, Error>(op),
                None => Err::<OpCode, Error>(Error::UnknownOpCode),
            }),
    {
        match b {
            0 => Ok(OpCode::OpConstant),
            1 => Ok(OpCode::OpAdd),
            2 => Ok(OpCode::OpSubtract),
            3 => Ok(OpCode::OpMultiply),
            4 => Ok(OpCode::OpDivide),
            5 => Ok(OpCode::OpNegate),
            6 => Ok(OpCode::OpReturn),
            _ => Err(Error::UnknownOpCode),
        }
    }
}

/// The constant pool: an append-only table of runtime values.
pub struct ValueArray {
    pub values: Vec<Value>,
}

impl ValueArray {
    pub fn new() -> (r: Self)
        ensures
            r.values@ == Seq::<Value>::empty(),
    {
        Self { values: Vec::new() }
    }

    /// Appends one value at the end of the pool.
    pub fn write(&mut self, value: Value)
        ensures
            final(self).values@ == old(self).values@.push(value),
    {
        self.values.push(value);
    }

    /// Reads the value at a pool position.
    pub fn read_value(&self, index: usize) -> (r: &Value)
        requires
            index < self.values@.len(),
        ensures
            *r == self.values@[index as int],
    {
        &self.values[index]
    }

    /// How many values the pool holds.
    pub fn count(&self) -> (n: usize)
        ensures
            n == self.values@.len(),
    {
        self.values.len()
    }
}

/// The largest number of constants one chunk may hold: a constant-load
/// operand is a single byte, so the pool must stay addressable by one.
pub const MAX_CONSTANTS: usize = 256;

/// An append-built container of bytecode: the instruction stream, a parallel
/// table mapping each byte to its source line, and the constant pool.
pub struct Chunk {
    pub code: Vec<u8>,
    pub lines: Vec<usize>,
    pub constants: ValueArray,
}

impl Chunk {
    /// The chunk's structural invariant: every code byte has a line
    /// annotation, and the constant pool stays addressable by one byte.
    pub open spec fn wf(self) -> bool {
        &&& self.code@.len() == self.lines@.len()
        &&& self.constants.values@.len() <= MAX_CONSTANTS
    }

    pub fn new() -> (r: Self)
        ensures
            r.wf(),
            r.code@ == Seq::<u8>::empty(),
            r.lines@ == Seq::<usize>::empty(),
            r.constants.values@ == Seq::<Value>::empty(),
    {
        Chunk { code: Vec::new(), lines: Vec::new(), constants: ValueArray::new() }
    }

    /// Appends one byte — an opcode or an operand — with its source line.
    pub fn write(&mut self, byte: u8, line: usize)
        requires
            old(self).wf(),
        ensures
            final(self).wf(),
            final(self).code@ == old(self).code@.push(byte),
            final(self).lines@ == old(self).lines@.push(line),
            final(self).constants.values@ == old(self).constants.values@,
    {
        self.code.push(byte);
        self.lines.push(line);
    }

    /// Bounds-contracted raw byte access, used by the machine's fetch step.
    pub fn read(&self, ip: usize) -> (b: u8)
        requires
            ip < self.code@.len(),
        ensures
            b == self.code@[ip as int],
    {
        self.code[ip]
    }

    /// Appends a value to the constant pool and returns its pool index.
    /// A pool already holding the largest addressable number of constants
    /// refuses the value, so every returned index fits in an operand byte.
    pub fn add_constants(&mut self, value: Value) -> (r: Result<usize, Error>)
        requires
            old(self).wf(),
        ensures
            final(self).wf(),
            final(self).code@ == old(self).code@,
            final(self).lines@ == old(self).lines@,
            old(self).constants.values@.len() < MAX_CONSTANTS ==> r == Ok::<usize, Error>(
                old(self).constants.values@.len() as usize,
            ) && final(self).constants.values@ == old(self).constants.values@.push(value),
            old(self).constants.values@.len() >= MAX_CONSTANTS ==> r == Err::<usize, Error>(
                Error::TooManyConstants,
            ) && final(self).constants.values@ == old(self).constants.values@,
    {
        if self.constants.count() < MAX_CONSTANTS {
            self.constants.write(value);
            Ok(self.constants.count() - 1)
        } else {
            Err(Error::TooManyConstants)
        }
    }

    /// Read access into the constant pool.
    pub fn get_constant(&self, index: usize) -> (r: &Value)
        requires
            index < self.constants.values@.len(),
        ensures
            *r == self.constants.values@[index as int],
    {
        self.constants.read_value(index)
    }
}

/// One disassembled instruction: its byte offset, its source line (absent
/// when it repeats the line annotated on the byte before it), its opcode,
/// and, for a constant load, the operand's pool index with the constant it
/// names. Rendering these records as text is the embedding's concern.
#[derive(Debug, PartialEq, Eq, Clone, Copy)]
pub struct DisLine {
    pub offset: usize,
    pub line: Option<usize>,
    pub op: OpCode,
    pub constant: Option<(u8, Value)>,
}

/// The source line shown for the instruction at `offset`: suppressed when it
/// equals the line annotated on the preceding byte.
pub open spec fn shown_line(lines: Seq<usize>, offset: int) -> Option<usize> {
    if offset > 0 && lines[offset] == lines[offset - 1] {
        None
    } else {
        Some(lines[offset])
    }
}

/// The disassembly of the instruction stream from `offset` on: each handler
/// yields the offset of the next instruction, so the walk decodes
/// variable-width instructions by construction. The first ill-formed
/// instruction stops the walk with its fault.
pub open spec fn spec_disassembly(
    code: Seq<u8>,
    lines: Seq<usize>,
    constants: Seq<Value>,
    offset: int,
) -> Result<Seq<DisLine>, Error>
    decreases code.len() - offset,
{
    if !(0 <= offset < code.len()) {
        Ok(Seq::empty())
    } else {
        match opcode_of_byte(code[offset]) {
            None => Err(Error::UnknownOpCode),
            Some(op) => {
                if op != OpCode::OpConstant {
                    let d = DisLine {
                        offset: offset as usize,
                        line: shown_line(lines, offset),
                        op,
                        constant: None,
                    };
                    match spec_disassembly(code, lines, constants, offset + 1) {
                        Ok(rest) => Ok(seq![d] + rest),
                        Err(e) => Err(e),
                    }
                } else if offset + 1 >= code.len() {
                    Err(Error::TruncatedInstruction)
                } else if code[offset + 1] as int >= constants.len() {
                    Err(Error::BadConstantIndex)
                } else {
                    let d = DisLine {
                        offset: offset as usize,
                        line: shown_line(lines, offset),
                        op,
                        constant: Some((code[offset + 1], constants[code[offset + 1] as int])),
                    };
                    match spec_disassembly(code, lines, constants, offset + 2) {
                        Ok(rest) => Ok(seq![d] + rest),
                        Err(e) => Err(e),
                    }
                }
            },
        }
    }
}

/// A two-instruction stream annotated with one source line disassembles to
/// records that show the line once: the first record carries it, the second
/// suppresses it.
pub proof fn lemma_line_shown_once(l: usize, v: Value)
    ensures
        ({
            let code = seq![0u8, 0u8, 6u8];
            let lines = seq![l, l, l];
            let constants = seq![v];
            spec_disassembly(code, lines, constants, 0) == Ok::<Seq<DisLine>, Error>(
                seq![
                    (DisLine {
                        offset: 0,
                        line: Some(l),
                        op: OpCode::OpConstant,
                        constant: Some((0u8, v)),
                    }),
                    (DisLine { offset: 2, line: None, op: OpCode::OpReturn, constant: None }),
                ],
            )
        }),
{
    let code = seq![0u8, 0u8, 6u8];
    let lines = seq![l, l, l];
    let constants = seq![v];
    let first = (DisLine {
        offset: 0,
        line: Some(l),
        op: OpCode::OpConstant,
        constant: Some((0u8, v)),
    });
    let second = (DisLine { offset: 2, line: None, op: OpCode::OpReturn, constant: None });
    assert(spec_disassembly(code, lines, constants, 3) == Ok::<Seq<DisLine>, Error>(Seq::empty()));
    assert(spec_disassembly(code, lines, constants, 2) == Ok::<Seq<DisLine>, Error>(
        seq![second] + Seq::empty(),
    ));
    assert(seq![second] + Seq::<DisLine>::empty() =~= seq![second]);
    assert(spec_disassembly(code, lines, constants, 0) == Ok::<Seq<DisLine>, Error>(
        seq![first] + seq![second],
    ));
    assert(seq![first] + seq![second] =~= seq![first, second]);
}

impl Chunk {
    /// Decodes the one instruction at `offset` for diagnostics, returning
    /// the offset of the next instruction beside the decoded record; an
    /// ill-formed instruction is reported as a clean fault, never a panic.
    pub fn disassemble_instruction(&self, offset: usize) -> (r: Result<(usize, DisLine), Error>)
        requires
            self.wf(),
            offset < self.code@.len(),
        ensures
            ({
                let b = self.code@[offset as int];
                match opcode_of_byte(b) {
                    None => r == Err::<(usize, DisLine), Error>(Error::UnknownOpCode),
                    Some(op) => {
                        if op != OpCode::OpConstant {
                            r == Ok::<(usize, DisLine), Error>(
                                (
                                    (offset + 1) as usize,
                                    (DisLine {
                                        offset,
                                        line: shown_line(self.lines@, offset as int),
                                        op,
                                        constant: None,
                                    }),
                                ),
                            )
                        } else if offset + 1 >= self.code@.len() {
                            r == Err::<(usize, DisLine), Error>(Error::TruncatedInstruction)
                        } else if self.code@[offset + 1] as int >= self.constants.values@.len() {
                            r == Err::<(usize, DisLine), Error>(Error::BadConstantIndex)
                        } else {
                            r == Ok::<(usize, DisLine), Error>(
                                (
                                    (offset + 2) as usize,
                                    (DisLine {
                                        offset,
                                        line: shown_line(self.lines@, offset as int),
                                        op,
                                        constant: Some(
                                            (
                                                self.code@[offset + 1],
                                                self.constants.values@[self.code@[offset
                                                    + 1] as int],
                                            ),
                                        ),
                                    }),
                                ),
                            )
                        }
                    },
                }
            }),
    {
        let n = self.code.len();
        let line = if offset > 0 && self.lines[offset] == self.lines[offset - 1] {
            None
        } else {
            Some(self.lines[offset])
        };
        let b = self.read(offset);
        match OpCode::from_byte(b) {
            Err(e) => Err(e),
            Ok(op) => match op {
                OpCode::OpConstant => {
                    if offset + 1 >= n {
                        Err(Error::TruncatedInstruction)
                    } else {
                        let idx = self.read(offset + 1);
                        if (idx as usize) >= self.constants.count() {
                            Err(Error::BadConstantIndex)
                        } else {
                            let value = *self.get_constant(idx as usize);
                            Ok(
                                (
                                    offset + 2,
                                    DisLine {
                                        offset,
                                        line,
                                        op,
                                        constant: Some((idx, value)),
                                    },
                                ),
                            )
                        }
                    }
                },
                _ => Ok((offset + 1, DisLine { offset, line, op, constant: None })),
            },
        }
    }

    /// Disassembles the whole instruction stream from offset zero, exactly
    /// as [`spec_disassembly`] states it.
    pub fn disassemble_chunk(&self) -> (r: Result<Vec<DisLine>, Error>)
        requires
            self.wf(),
        ensures
            (match r {
                Ok(v) => spec_disassembly(self.code@, self.lines@, self.constants.values@, 0)
                    == Ok::<Seq<DisLine>, Error>(v@),
                Err(e) => spec_disassembly(self.code@, self.lines@, self.constants.values@, 0)
                    == Err::<Seq<DisLine>, Error>(e),
            }),
    {
        let ghost code = self.code@;
        let ghost lines = self.lines@;
        let ghost constants = self.constants.values@;
        let mut out: Vec<DisLine> = Vec::new();
        let mut offset: usize = 0;
        while offset < self.code.len()
            invariant
                code == self.code@,
                lines == self.lines@,
                constants == self.constants.values@,
                self.wf(),
                0 <= offset,
                spec_disassembly(code, lines, constants, 0) == (match spec_disassembly(
                    code,
                    lines,
                    constants,
                    offset as int,
                ) {
                    Ok(rest) => Ok::<Seq<DisLine>, Error>(out@ + rest),
                    Err(e) => Err::<Seq<DisLine>, Error>(e),
                }),
            decreases code.len() - offset,
        {
            match self.disassemble_instruction(offset) {
                Err(e) => {
                    return Err(e);
                },
                Ok((next, d)) => {
                    proof {
                        let rest = spec_disassembly(code, lines, constants, next as int);
                        if rest is Ok {
                            assert(out@ + (seq![d] + rest.unwrap()) =~= out@.push(d)
                                + rest.unwrap());
                        }
                    }
                    out.push(d);
                    offset = next;
                },
            }
        }
        proof {
            assert(out@ + Seq::<DisLine>::empty() =~= out@);
        }
        Ok(out)
    }
}

} // verus!
