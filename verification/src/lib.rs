//! An interpreter for a small classical-Chinese programming language:
//! a longest-match scanner, a single-pass bytecode compiler and a stack
//! virtual machine, with their behaviour stated as contracts.
//!
//! Numbers are doubles, which the library holds as bit patterns. It
//! compares them itself; reading them from decimal notation, arithmetic on
//! them and writing them out is left to the host: `number_literals` names
//! the literals of a source, `interpret` takes the doubles read from them,
//! and the machine hands out a request where an instruction needs
//! arithmetic and a list of pieces where it prints.

pub mod chunk;
pub mod compiler;
pub mod convert;
pub mod decimal;
pub mod interner;
pub mod interpreter;
pub mod keywords;
pub mod machine;
pub mod memory;
pub mod object;
pub mod opcode;
pub mod parsing;
pub mod position;
pub mod scanner;
pub mod statements;
pub mod token;
pub mod value;
pub mod vm;
