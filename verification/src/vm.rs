use vstd::prelude::*;

use crate::chunk::{opcode_of_byte, Chunk, OpCode, Value};

verus! {

/// The three-way classification of a finished interpretation: success with
/// the returned value, a chunk that was not well built, or a runtime fault.
/// The two failure domains are never conflated.
#[derive(Debug, PartialEq, Eq, Structural, Clone, Copy)]
pub enum InterpretResult {
    InterpretOk(Value),
    InterpretCompileError,
    InterpretRuntimeError,
}

/// What one fetch-decode-execute step asks of its driver. The machine
/// decides everything about fetching, decoding and the stack; arithmetic on
/// the opaque values is handed out and comes back through [`VM::push`].
#[derive(Debug, PartialEq, Eq, Structural, Clone, Copy)]
pub enum StepOutcome {
    /// The step completed on its own (a constant was loaded).
    Continue,
    /// Two operands popped for a binary arithmetic opcode, deeper one first:
    /// the driver computes the operation and hands the result back.
    Binary(OpCode, Value, Value),
    /// One operand popped for negation: the driver computes the additive
    /// inverse and hands it back.
    Negate(Value),
    /// Execution finished, well or badly.
    Done(InterpretResult),
}

/// One fetch-decode-execute step as a function of the machine state: the new
/// instruction pointer, the new stack, and what the step asks of the driver.
/// A fetch past the end of the stream, an unrecognized opcode and an
/// ill-formed constant load are chunk-building faults; popping an absent
/// operand is a runtime error. Errors leave the state as it was.
pub open spec fn step_spec(
    code: Seq<u8>,
    constants: Seq<Value>,
    ip: int,
    stack: Seq<Value>,
) -> (int, Seq<Value>, StepOutcome) {
    if !(0 <= ip < code.len()) {
        (ip, stack, StepOutcome::Done(InterpretResult::InterpretCompileError))
    } else {
        match opcode_of_byte(code[ip]) {
            None => (ip, stack, StepOutcome::Done(InterpretResult::InterpretCompileError)),
            Some(op) => match op {
                OpCode::OpConstant => {
                    if ip + 1 < code.len() && (code[ip + 1] as int) < constants.len() {
                        (ip + 2, stack.push(constants[code[ip + 1] as int]), StepOutcome::Continue)
                    } else {
                        (ip, stack, StepOutcome::Done(InterpretResult::InterpretCompileError))
                    }
                },
                OpCode::OpAdd | OpCode::OpSubtract | OpCode::OpMultiply | OpCode::OpDivide => {
                    if stack.len() >= 2 {
                        (
                            ip + 1,
                            stack.take(stack.len() - 2),
                            StepOutcome::Binary(
                                op,
                                stack[stack.len() - 2],
                                stack[stack.len() - 1],
                            ),
                        )
                    } else {
                        (ip, stack, StepOutcome::Done(InterpretResult::InterpretRuntimeError))
                    }
                },
                OpCode::OpNegate => {
                    if stack.len() >= 1 {
                        (ip + 1, stack.drop_last(), StepOutcome::Negate(stack.last()))
                    } else {
                        (ip, stack, StepOutcome::Done(InterpretResult::InterpretRuntimeError))
                    }
                },
                OpCode::OpReturn => {
                    if stack.len() >= 1 {
                        (
                            ip + 1,
                            stack.drop_last(),
                            StepOutcome::Done(InterpretResult::InterpretOk(stack.last())),
                        )
                    } else {
                        (ip, stack, StepOutcome::Done(InterpretResult::InterpretRuntimeError))
                    }
                },
            },
        }
    }
}

/// The virtual machine: one instruction pointer into a chunk's code, and one
/// operand stack. It never mutates the chunk it executes.
pub struct VM {
    pub ip: usize,
    pub stack: Vec<Value>,
}

impl VM {
    pub fn new() -> (vm: VM)
        ensures
            vm.ip == 0,
            vm.stack@ == Seq::<Value>::empty(),
    {
        VM { ip: 0, stack: vec![] }
    }

    /// Returns the machine to its idle state: instruction pointer at the
    /// start, operand stack empty. Every interpretation begins here.
    pub fn reset(&mut self)
        ensures
            final(self).ip == 0,
            final(self).stack@ == Seq::<Value>::empty(),
    {
        self.ip = 0;
        self.stack.clear();
    }

    /// Hands a driver-computed value back onto the operand stack, answering
    /// a `Binary` or `Negate` outcome.
    pub fn push(&mut self, v: Value)
        ensures
            final(self).ip == old(self).ip,
            final(self).stack@ == old(self).stack@.push(v),
    {
        self.stack.push(v);
    }

    /// Performs one fetch-decode-execute step against a read-only chunk,
    /// exactly as [`step_spec`] states it.
    pub fn step(&mut self, chunk: &Chunk) -> (r: StepOutcome)
        requires
            chunk.wf(),
        ensures
            ({
                let (ip2, stack2, out) = step_spec(
                    chunk.code@,
                    chunk.constants.values@,
                    old(self).ip as int,
                    old(self).stack@,
                );
                &&& final(self).ip == ip2
                &&& final(self).stack@ == stack2
                &&& r == out
            }),
    {
        if self.ip >= chunk.code.len() {
            return StepOutcome::Done(InterpretResult::InterpretCompileError);
        }
        let b = chunk.read(self.ip);
        match OpCode::from_byte(b) {
            Err(_) => StepOutcome::Done(InterpretResult::InterpretCompileError),
            Ok(op) => match op {
                OpCode::OpConstant => {
                    if self.ip + 1 < chunk.code.len() {
                        let idx = chunk.read(self.ip + 1);
                        if (idx as usize) < chunk.constants.count() {
                            let v = *chunk.get_constant(idx as usize);
                            self.ip = self.ip + 2;
                            self.stack.push(v);
                            StepOutcome::Continue
                        } else {
                            StepOutcome::Done(InterpretResult::InterpretCompileError)
                        }
                    } else {
                        StepOutcome::Done(InterpretResult::InterpretCompileError)
                    }
                },
                OpCode::OpAdd | OpCode::OpSubtract | OpCode::OpMultiply | OpCode::OpDivide => {
                    if self.stack.len() >= 2 {
                        let vb = self.stack.pop().unwrap();
                        let va = self.stack.pop().unwrap();
                        self.ip = self.ip + 1;
                        proof {
                            assert(self.stack@ =~= old(self).stack@.take(
                                old(self).stack@.len() - 2,
                            ));
                        }
                        StepOutcome::Binary(op, va, vb)
                    } else {
                        StepOutcome::Done(InterpretResult::InterpretRuntimeError)
                    }
                },
                OpCode::OpNegate => {
                    if self.stack.len() >= 1 {
                        let v = self.stack.pop().unwrap();
                        self.ip = self.ip + 1;
                        proof {
                            assert(self.stack@ =~= old(self).stack@.drop_last());
                        }
                        StepOutcome::Negate(v)
                    } else {
                        StepOutcome::Done(InterpretResult::InterpretRuntimeError)
                    }
                },
                OpCode::OpReturn => {
                    if self.stack.len() >= 1 {
                        let v = self.stack.pop().unwrap();
                        self.ip = self.ip + 1;
                        proof {
                            assert(self.stack@ =~= old(self).stack@.drop_last());
                        }
                        StepOutcome::Done(InterpretResult::InterpretOk(v))
                    } else {
                        StepOutcome::Done(InterpretResult::InterpretRuntimeError)
                    }
                },
            },
        }
    }
}

/// Round trip through the machine: a chunk that loads two constants, adds
/// and returns drives a fresh machine through exactly two loads and one
/// arithmetic request — the addition of the two constants, in order — and
/// then returns whatever value the driver handed back for it.
pub proof fn lemma_add_round_trip(x: Value, y: Value, r: Value)
    ensures
        ({
            let code = seq![0u8, 0u8, 0u8, 1u8, 1u8, 6u8];
            let constants = seq![x, y];
            &&& step_spec(code, constants, 0, Seq::empty()) == (
                2int,
                seq![x],
                StepOutcome::Continue,
            )
            &&& step_spec(code, constants, 2, seq![x]) == (
                4int,
                seq![x, y],
                StepOutcome::Continue,
            )
            &&& step_spec(code, constants, 4, seq![x, y]) == (
                5int,
                Seq::<Value>::empty(),
                StepOutcome::Binary(OpCode::OpAdd, x, y),
            )
            &&& step_spec(code, constants, 5, seq![r]) == (
                6int,
                Seq::<Value>::empty(),
                StepOutcome::Done(InterpretResult::InterpretOk(r)),
            )
        }),
{
    assert(Seq::<Value>::empty().push(x) =~= seq![x]);
    assert(seq![x].push(y) =~= seq![x, y]);
    assert(seq![x, y].take(0) =~= Seq::<Value>::empty());
    assert(seq![r].drop_last() =~= Seq::<Value>::empty());
}

/// A binary arithmetic opcode facing fewer than two stacked operands never
/// succeeds and never faults: the step reports a runtime error and leaves
/// the machine state as it was.
pub proof fn lemma_underflow_is_runtime_error(
    code: Seq<u8>,
    constants: Seq<Value>,
    ip: int,
    stack: Seq<Value>,
)
    requires
        0 <= ip < code.len(),
        opcode_of_byte(code[ip]) == Some(OpCode::OpAdd) || opcode_of_byte(code[ip]) == Some(
            OpCode::OpSubtract,
        ) || opcode_of_byte(code[ip]) == Some(OpCode::OpMultiply) || opcode_of_byte(code[ip])
            == Some(OpCode::OpDivide),
        stack.len() < 2,
    ensures
        step_spec(code, constants, ip, stack) == (
            ip,
            stack,
            StepOutcome::Done(InterpretResult::InterpretRuntimeError),
        ),
{
}

} // verus!
