//! The instruction set of the virtual machine.
//!
//! Every instruction is one opcode byte followed by a fixed number of operand
//! bytes. Multi-byte operands are little-endian.

use vstd::prelude::*;

verus! {

pub const RETURN: u8 = 0;
pub const CONSTANT: u8 = 1;
pub const NIL: u8 = 2;
pub const TRUE: u8 = 3;
pub const FALSE: u8 = 4;
pub const POP: u8 = 5;
pub const ADD: u8 = 6;
pub const SUBTRACT: u8 = 7;
pub const MULTIPLY: u8 = 8;
pub const INVERT: u8 = 9;
pub const EQUAL_EQUAL: u8 = 10;
pub const GREATER: u8 = 11;
pub const LESS: u8 = 12;
pub const AND: u8 = 13;
pub const OR: u8 = 14;
pub const PRINT: u8 = 15;
pub const DEFINE_GLOBAL: u8 = 16;
pub const GET_GLOBAL: u8 = 17;
pub const SET_GLOBAL: u8 = 18;
pub const DEFINE_LOCAL: u8 = 19;
pub const GET_LOCAL: u8 = 20;
pub const SET_LOCAL: u8 = 21;
pub const POP_LOCAL: u8 = 22;
pub const JUMP_IF_FALSE: u8 = 23;
pub const JUMP: u8 = 24;
pub const LOOP: u8 = 25;
pub const RECORD_BREAK: u8 = 26;
pub const BREAK: u8 = 27;
pub const DISCARD_BREAK: u8 = 28;
pub const CALL: u8 = 29;

/// Operand byte of an arithmetic instruction: the second operand written in
/// the source is the left operand of the operation.
pub const PREPOSITION_LEFT: u8 = 30;
/// Operand byte of an arithmetic instruction: the operands keep their
/// source order.
pub const PREPOSITION_RIGHT: u8 = 31;

/// Number of operand bytes that follow the opcode `op`. A byte that is no
/// opcode stands for an instruction without operands.
pub open spec fn operand_width(op: u8) -> nat {
    if op == CONSTANT || op == GET_GLOBAL || op == SET_GLOBAL || op == GET_LOCAL || op == SET_LOCAL
        || op == JUMP_IF_FALSE || op == JUMP || op == LOOP || op == RECORD_BREAK || op == CALL {
        4
    } else if op == DEFINE_GLOBAL {
        5
    } else if op == ADD || op == SUBTRACT || op == MULTIPLY || op == DEFINE_LOCAL {
        1
    } else {
        0
    }
}

/// Whether `op` transfers control by the offset in its operand.
pub open spec fn is_jump(op: u8) -> bool {
    op == JUMP_IF_FALSE || op == JUMP || op == LOOP || op == RECORD_BREAK
}

/// Number of operand bytes that follow the opcode `op`.
pub fn operand_count(op: u8) -> (n: usize)
    ensures
        n == operand_width(op),
{
    if op == CONSTANT || op == GET_GLOBAL || op == SET_GLOBAL || op == GET_LOCAL || op == SET_LOCAL
        || op == JUMP_IF_FALSE || op == JUMP || op == LOOP || op == RECORD_BREAK || op == CALL {
        4
    } else if op == DEFINE_GLOBAL {
        5
    } else if op == ADD || op == SUBTRACT || op == MULTIPLY || op == DEFINE_LOCAL {
        1
    } else {
        0
    }
}

} // verus!
