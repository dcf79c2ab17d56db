use rlox::chunk::{Chunk, DisLine, OpCode, ValueArray};
use rlox::errors::Error;

#[test]
fn test_chunks() {
    let mut chunk = Chunk::new();
    let constant = chunk.add_constants(1.2f64.to_bits()).unwrap();
    chunk.write(OpCode::OpConstant.to_byte(), 123);
    chunk.write(constant as u8, 123);
    chunk.write(OpCode::OpReturn.to_byte(), 123);
    for line in chunk.disassemble_chunk().unwrap() {
        println!("{:?}", line);
    }
}

#[test]
fn test_opcode_bytes_roundtrip() {
    let ops = [
        OpCode::OpConstant,
        OpCode::OpAdd,
        OpCode::OpSubtract,
        OpCode::OpMultiply,
        OpCode::OpDivide,
        OpCode::OpNegate,
        OpCode::OpReturn,
    ];
    for (i, op) in ops.into_iter().enumerate() {
        assert_eq!(op.to_byte(), i as u8);
        assert_eq!(OpCode::from_byte(i as u8), Ok(op));
    }
}

#[test]
fn test_unknown_opcode_byte() {
    assert_eq!(OpCode::from_byte(7), Err(Error::UnknownOpCode));
    assert_eq!(OpCode::from_byte(255), Err(Error::UnknownOpCode));
}

#[test]
fn test_value_array() {
    let mut values = ValueArray::new();
    assert_eq!(values.count(), 0);
    values.write(7);
    values.write(9);
    assert_eq!(values.count(), 2);
    assert_eq!(*values.read_value(0), 7);
    assert_eq!(*values.read_value(1), 9);
}

#[test]
fn test_chunk_read_and_constants() {
    let mut chunk = Chunk::new();
    let a = chunk.add_constants(5.0f64.to_bits()).unwrap();
    assert_eq!(a, 0);
    let b = chunk.add_constants(7.0f64.to_bits()).unwrap();
    assert_eq!(b, 1);
    chunk.write(OpCode::OpConstant.to_byte(), 1);
    chunk.write(a as u8, 1);
    assert_eq!(chunk.read(0), 0);
    assert_eq!(chunk.read(1), 0);
    assert_eq!(*chunk.get_constant(1), 7.0f64.to_bits());
}

#[test]
fn test_constant_pool_overflows_cleanly() {
    let mut chunk = Chunk::new();
    for i in 0..256u32 {
        assert_eq!(chunk.add_constants(f64::from(i).to_bits()), Ok(i as usize));
    }
    assert_eq!(
        chunk.add_constants(1.0f64.to_bits()),
        Err(Error::TooManyConstants)
    );
}

#[test]
fn test_disassemble_line_suppression() {
    let mut chunk = Chunk::new();
    let c = chunk.add_constants(1.2f64.to_bits()).unwrap();
    chunk.write(OpCode::OpConstant.to_byte(), 123);
    chunk.write(c as u8, 123);
    chunk.write(OpCode::OpReturn.to_byte(), 123);
    let lines = chunk.disassemble_chunk().unwrap();
    assert_eq!(
        lines,
        vec![
            DisLine {
                offset: 0,
                line: Some(123),
                op: OpCode::OpConstant,
                constant: Some((0, 1.2f64.to_bits())),
            },
            DisLine {
                offset: 2,
                line: None,
                op: OpCode::OpReturn,
                constant: None,
            },
        ]
    );
}

#[test]
fn test_disassemble_shows_new_lines() {
    let mut chunk = Chunk::new();
    chunk.write(OpCode::OpAdd.to_byte(), 1);
    chunk.write(OpCode::OpReturn.to_byte(), 2);
    let lines = chunk.disassemble_chunk().unwrap();
    assert_eq!(lines[0].line, Some(1));
    assert_eq!(lines[1].line, Some(2));
}

#[test]
fn test_disassemble_truncated_constant() {
    let mut chunk = Chunk::new();
    chunk.write(OpCode::OpConstant.to_byte(), 1);
    assert_eq!(chunk.disassemble_chunk(), Err(Error::TruncatedInstruction));
}

#[test]
fn test_disassemble_bad_constant_index() {
    let mut chunk = Chunk::new();
    chunk.write(OpCode::OpConstant.to_byte(), 1);
    chunk.write(3, 1);
    assert_eq!(chunk.disassemble_chunk(), Err(Error::BadConstantIndex));
}

#[test]
fn test_disassemble_unknown_opcode() {
    let mut chunk = Chunk::new();
    chunk.write(9, 1);
    assert_eq!(chunk.disassemble_chunk(), Err(Error::UnknownOpCode));
}
