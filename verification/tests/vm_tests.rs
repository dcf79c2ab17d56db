use rlox::chunk::{Chunk, OpCode};
use rlox::vm::{InterpretResult, StepOutcome, VM};

/// Drives the machine's step loop to completion, supplying the
/// floating-point arithmetic the core leaves to its embedding.
fn interpret(vm: &mut VM, chunk: &Chunk) -> InterpretResult {
    vm.reset();
    loop {
        match vm.step(chunk) {
            StepOutcome::Continue => {}
            StepOutcome::Binary(op, a, b) => {
                let x = f64::from_bits(a);
                let y = f64::from_bits(b);
                let r = match op {
                    OpCode::OpAdd => x + y,
                    OpCode::OpSubtract => x - y,
                    OpCode::OpMultiply => x * y,
                    OpCode::OpDivide => x / y,
                    _ => unreachable!("a binary outcome carries an arithmetic opcode"),
                };
                vm.push(r.to_bits());
            }
            StepOutcome::Negate(v) => {
                vm.push((-f64::from_bits(v)).to_bits());
            }
            StepOutcome::Done(result) => return result,
        }
    }
}

fn emit_constant(chunk: &mut Chunk, value: f64, line: usize) {
    let index = chunk.add_constants(value.to_bits()).unwrap();
    chunk.write(OpCode::OpConstant.to_byte(), line);
    chunk.write(index as u8, line);
}

#[test]
fn test_add_round_trip() {
    let mut chunk = Chunk::new();
    emit_constant(&mut chunk, 1.2, 1);
    emit_constant(&mut chunk, 3.4, 1);
    chunk.write(OpCode::OpAdd.to_byte(), 1);
    chunk.write(OpCode::OpReturn.to_byte(), 1);
    let mut vm = VM::new();
    let result = interpret(&mut vm, &chunk);
    assert_eq!(result, InterpretResult::InterpretOk(4.6f64.to_bits()));
}

#[test]
fn test_add_then_divide() {
    let mut chunk = Chunk::new();
    emit_constant(&mut chunk, 1.2, 1);
    emit_constant(&mut chunk, 3.4, 1);
    chunk.write(OpCode::OpAdd.to_byte(), 1);
    emit_constant(&mut chunk, 5.6, 1);
    chunk.write(OpCode::OpDivide.to_byte(), 1);
    chunk.write(OpCode::OpReturn.to_byte(), 1);
    let mut vm = VM::new();
    let result = interpret(&mut vm, &chunk);
    assert_eq!(
        result,
        InterpretResult::InterpretOk(((1.2f64 + 3.4f64) / 5.6f64).to_bits())
    );
}

#[test]
fn test_subtract_multiply_negate() {
    let mut chunk = Chunk::new();
    emit_constant(&mut chunk, 9.0, 1);
    emit_constant(&mut chunk, 2.5, 1);
    chunk.write(OpCode::OpSubtract.to_byte(), 1);
    emit_constant(&mut chunk, 2.0, 1);
    chunk.write(OpCode::OpMultiply.to_byte(), 1);
    chunk.write(OpCode::OpNegate.to_byte(), 1);
    chunk.write(OpCode::OpReturn.to_byte(), 1);
    let mut vm = VM::new();
    let result = interpret(&mut vm, &chunk);
    assert_eq!(
        result,
        InterpretResult::InterpretOk((-((9.0f64 - 2.5f64) * 2.0f64)).to_bits())
    );
}

#[test]
fn test_divide_by_zero_follows_float_convention() {
    let mut chunk = Chunk::new();
    emit_constant(&mut chunk, 1.0, 1);
    emit_constant(&mut chunk, 0.0, 1);
    chunk.write(OpCode::OpDivide.to_byte(), 1);
    chunk.write(OpCode::OpReturn.to_byte(), 1);
    let mut vm = VM::new();
    match interpret(&mut vm, &chunk) {
        InterpretResult::InterpretOk(bits) => {
            assert!(f64::from_bits(bits).is_infinite());
        }
        other => panic!("expected success, got {:?}", other),
    }
}

#[test]
fn test_lone_add_is_runtime_error() {
    let mut chunk = Chunk::new();
    chunk.write(OpCode::OpAdd.to_byte(), 1);
    let mut vm = VM::new();
    let result = interpret(&mut vm, &chunk);
    assert_eq!(result, InterpretResult::InterpretRuntimeError);
}

#[test]
fn test_return_on_empty_stack_is_runtime_error() {
    let mut chunk = Chunk::new();
    chunk.write(OpCode::OpReturn.to_byte(), 1);
    let mut vm = VM::new();
    assert_eq!(
        interpret(&mut vm, &chunk),
        InterpretResult::InterpretRuntimeError
    );
}

#[test]
fn test_empty_chunk_is_compile_error() {
    let chunk = Chunk::new();
    let mut vm = VM::new();
    assert_eq!(
        interpret(&mut vm, &chunk),
        InterpretResult::InterpretCompileError
    );
}

#[test]
fn test_unknown_opcode_is_compile_error() {
    let mut chunk = Chunk::new();
    chunk.write(9, 1);
    let mut vm = VM::new();
    assert_eq!(
        interpret(&mut vm, &chunk),
        InterpretResult::InterpretCompileError
    );
}

#[test]
fn test_constant_index_out_of_pool_is_compile_error() {
    let mut chunk = Chunk::new();
    chunk.write(OpCode::OpConstant.to_byte(), 1);
    chunk.write(2, 1);
    let mut vm = VM::new();
    assert_eq!(
        interpret(&mut vm, &chunk),
        InterpretResult::InterpretCompileError
    );
}

#[test]
fn test_vm_is_reusable_across_interpretations() {
    let mut chunk = Chunk::new();
    emit_constant(&mut chunk, 2.0, 1);
    chunk.write(OpCode::OpReturn.to_byte(), 1);
    let mut vm = VM::new();
    assert_eq!(
        interpret(&mut vm, &chunk),
        InterpretResult::InterpretOk(2.0f64.to_bits())
    );
    assert_eq!(
        interpret(&mut vm, &chunk),
        InterpretResult::InterpretOk(2.0f64.to_bits())
    );
}
