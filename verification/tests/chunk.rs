use wyw::chunk::Chunk;
use wyw::opcode;
use wyw::value::Value;

#[test]
fn writes_bytes_and_lines() {
    let mut chunk = Chunk::new();
    chunk.write(opcode::NIL, 1);
    chunk.write(opcode::POP, 1);
    chunk.write(opcode::RETURN, 3);
    assert_eq!(*chunk.code(), vec![opcode::NIL, opcode::POP, opcode::RETURN]);
    assert_eq!(chunk.len(), 3);
    assert_eq!(chunk.get_line(0), 1);
    assert_eq!(chunk.get_line(1), 1);
    assert_eq!(chunk.get_line(2), 3);
    assert_eq!(chunk.get_line(3), 0);
    assert_eq!(chunk.get_u8(1), opcode::POP);
}

#[test]
fn operands_are_little_endian() {
    let mut chunk = Chunk::new();
    chunk.add_u8(opcode::CONSTANT, 7);
    chunk.add_u32(0x0102_0304, 7);
    assert_eq!(*chunk.code(), vec![opcode::CONSTANT, 4, 3, 2, 1]);
    assert_eq!(chunk.get_u32(1), 0x0102_0304);
    assert_eq!(chunk.get_line(4), 7);
    chunk.overwrite_u32(1, 0xFFFF_FFFE);
    assert_eq!(*chunk.code(), vec![opcode::CONSTANT, 0xFE, 0xFF, 0xFF, 0xFF]);
    assert_eq!(chunk.get_u32(1), 0xFFFF_FFFE);
    assert_eq!(chunk.get_line(4), 7);
}

#[test]
fn constants_get_slots_in_order() {
    let mut chunk = Chunk::new();
    assert_eq!(chunk.add_constant(Value::Nil), 0);
    assert_eq!(chunk.add_constant(Value::Bool(true)), 1);
    assert_eq!(*chunk.constants(), vec![Value::Nil, Value::Bool(true)]);
}

#[test]
fn save_line_extends_the_line_table() {
    let mut chunk = Chunk::new();
    chunk.save_line(2);
    chunk.save_line(2);
    chunk.save_line(5);
    assert_eq!(chunk.get_line(0), 2);
    assert_eq!(chunk.get_line(1), 2);
    assert_eq!(chunk.get_line(2), 5);
    assert_eq!(chunk.get_line(3), 0);
}

fn chunk_of(bytes: &[u8]) -> Chunk {
    let mut chunk = Chunk::new();
    for byte in bytes {
        chunk.write(*byte, 1);
    }
    chunk
}

#[test]
fn valid_chunks_are_recognised() {
    assert!(chunk_of(&[]).is_well_formed());
    assert!(chunk_of(&[opcode::NIL, opcode::RETURN]).is_well_formed());
    // JUMP over one instruction to RETURN
    assert!(chunk_of(&[opcode::JUMP, 1, 0, 0, 0, opcode::POP, opcode::RETURN]).is_well_formed());
    // LOOP back to the first instruction
    assert!(chunk_of(&[opcode::POP, opcode::LOOP, 5, 0, 0, 0, opcode::RETURN]).is_well_formed());
    // unknown bytes are instructions without operands
    assert!(chunk_of(&[200, opcode::RETURN]).is_well_formed());
}

#[test]
fn invalid_chunks_are_recognised() {
    // an operand is cut off
    assert!(!chunk_of(&[opcode::CONSTANT, 0, 0]).is_well_formed());
    // a jump into the operand of CONSTANT
    assert!(!chunk_of(&[opcode::JUMP, 2, 0, 0, 0, opcode::CONSTANT, 0, 0, 0, 0, opcode::RETURN]).is_well_formed());
    // a jump behind the end
    assert!(!chunk_of(&[opcode::JUMP, 1, 0, 0, 0, opcode::RETURN]).is_well_formed());
    // a loop to before the start
    assert!(!chunk_of(&[opcode::LOOP, 5, 0, 0, 0, opcode::RETURN]).is_well_formed());
    // a break target inside an instruction
    assert!(!chunk_of(&[opcode::RECORD_BREAK, 1, 0, 0, 0, opcode::DEFINE_LOCAL, 0, opcode::RETURN]).is_well_formed());
}

#[test]
fn operand_widths() {
    assert_eq!(opcode::operand_count(opcode::CONSTANT), 4);
    assert_eq!(opcode::operand_count(opcode::DEFINE_GLOBAL), 5);
    assert_eq!(opcode::operand_count(opcode::ADD), 1);
    assert_eq!(opcode::operand_count(opcode::DEFINE_LOCAL), 1);
    assert_eq!(opcode::operand_count(opcode::RETURN), 0);
    assert_eq!(opcode::operand_count(opcode::CALL), 4);
    assert_eq!(opcode::operand_count(255), 0);
}
