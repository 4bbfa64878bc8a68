//! The virtual machine as a mathematical object: its state and what one
//! instruction does to it.
//!
//! Arithmetic on numbers is not done by the machine. An arithmetic
//! instruction on two numbers leaves a request; the host computes the
//! result and resumes the machine with it.

use vstd::prelude::*;
use crate::chunk::{is_instruction_start, jump_target, le_value, lemma_reaches_next, well_formed, ChunkView};
use crate::decimal::decimal;
use crate::interner::StrId;
use crate::interpreter::{Frame, InterpretStatus, RuntimeView};
use crate::opcode;
use crate::opcode::operand_width;
use crate::value::{callable, falsy, number_less, values_equal, Value};

verus! {

#[derive(Debug, Clone, Copy, PartialEq, Eq, Structural)]
pub enum ArithmeticOp {
    Add,
    Subtract,
    Multiply,
}

/// An operation on two numbers that the host is asked to compute:
/// `left op right`.
#[derive(Debug, Clone, Copy, PartialEq, Eq, Structural)]
pub struct Request {
    pub op: ArithmeticOp,
    pub left: u64,
    pub right: u64,
}

/// One printed value: its text, or a number that the host writes out.
pub enum Piece {
    Text(Seq<char>),
    Number(u64),
}

/// What one step of the machine tells the host.
pub enum Outcome {
    /// An instruction was executed.
    Continue,
    /// A line is to be printed: the pieces, separated by single spaces.
    Print(Seq<Piece>),
    /// The machine waits for the result of an operation on two numbers.
    Arithmetic(Request),
    /// A runtime error ended the run.
    Error { line: usize, message: Seq<char> },
    /// The run is over.
    Done(InterpretStatus),
}

impl Outcome {
    /// The outcome, with an error reported for `line`.
    pub open spec fn at_line(self, line: usize) -> Outcome {
        match self {
            Outcome::Error { line: _, message } => Outcome::Error { line, message },
            other => other,
        }
    }
}

/// The state of the machine.
pub struct Machine {
    pub stack: Seq<Value>,
    pub locals: Seq<Value>,
    pub breaks: Seq<usize>,
    /// The global variables, by the identity of their name.
    pub globals: Map<u32, Value>,
    pub runtime: RuntimeView,
    pub pending: Option<Request>,
    pub status: Option<InterpretStatus>,
}

pub open spec fn stack_underflow() -> Seq<char> {
    "stack underflow."@
}

pub open spec fn unknown_string() -> Seq<char> {
    "not find this string in interner."@
}

pub open spec fn bad_jump() -> Seq<char> {
    "jump out of range."@
}

pub open spec fn operands_must_be_numbers() -> Seq<char> {
    "Operands must be numbers."@
}

pub open spec fn not_callable() -> Seq<char> {
    "can only call functions and classes."@
}

/// The texts `parts` in one line, with a single space between two of them.
pub open spec fn joined(parts: Seq<Seq<char>>) -> Seq<char>
    decreases parts.len(),
{
    if parts.len() == 0 {
        Seq::empty()
    } else if parts.len() == 1 {
        parts[0]
    } else {
        joined(parts.drop_last()) + " "@ + parts.last()
    }
}

/// The line that is written for a runtime error on line `line`.
pub open spec fn error_text(line: usize, message: Seq<char>) -> Seq<char> {
    "[line "@ + decimal(line as nat) + "] error: "@ + message
}

/// The message about an undefined global named `name`.
pub open spec fn undefined_variable(name: Seq<char>) -> Seq<char> {
    "undefined variable "@ + name
}

/// The message about a call with `got` arguments of a function that takes
/// `expected`.
pub open spec fn wrong_arity(expected: nat, got: nat) -> Seq<char> {
    "expected "@ + decimal(expected) + " arguments but got "@ + decimal(got) + "."@
}

/// The stack without its `count` topmost values, or empty where it has
/// fewer.
pub open spec fn without_top(stack: Seq<Value>, count: int) -> Seq<Value> {
    if stack.len() >= count {
        stack.take(stack.len() - count)
    } else {
        Seq::empty()
    }
}

/// The first `len` values of the stack, or all where it has fewer.
pub open spec fn cut(stack: Seq<Value>, len: int) -> Seq<Value> {
    if len <= stack.len() {
        stack.take(len)
    } else {
        stack
    }
}

/// Index of the lowest value that a print writes: the one above the
/// topmost function or closure.
pub open spec fn print_from(stack: Seq<Value>) -> int
    decreases stack.len(),
{
    if stack.len() == 0 || callable(stack.last()) {
        stack.len() as int
    } else {
        print_from(stack.drop_last())
    }
}

impl Machine {
    /// The machine before it runs: empty stacks, no globals.
    pub open spec fn initial(runtime: RuntimeView) -> Machine {
        Machine {
            stack: Seq::empty(),
            locals: Seq::empty(),
            breaks: Seq::empty(),
            globals: Map::empty(),
            runtime,
            pending: None,
            status: None,
        }
    }

    /// The runtime is valid, and a machine that waits for the host has two
    /// operands on its stack and is still running.
    pub open spec fn valid(self) -> bool {
        &&& self.runtime.valid()
        &&& self.pending is Some ==> self.stack.len() >= 2 && self.status is None
    }

    /// The machine can execute an instruction.
    pub open spec fn running(self) -> bool {
        self.status is None && self.pending is None && self.runtime.frames.len() > 0
    }

    /// The frame that runs.
    pub open spec fn frame(self) -> Frame {
        self.runtime.frames.last()
    }

    /// The chunk of the function that runs.
    pub open spec fn chunk(self) -> ChunkView {
        self.runtime.closures[self.frame().closure_id as int].function.chunk
    }

    /// The machine with the instruction pointer of the running frame at
    /// `ip`.
    pub open spec fn jump_to(self, ip: usize) -> Machine {
        Machine {
            runtime: RuntimeView {
                frames: self.runtime.frames.update(
                    self.runtime.frames.len() - 1,
                    Frame { ip, ..self.frame() },
                ),
                ..self.runtime
            },
            ..self
        }
    }

    /// A runtime error: the value stack is cleared and the run is over.
    /// The line is that of the byte at which the instruction pointer
    /// stands; `step` reports an error for the line of the instruction
    /// that failed.
    pub open spec fn fail(self, message: Seq<char>) -> (Machine, Outcome) {
        (
            Machine { stack: Seq::empty(), status: Some(InterpretStatus::RuntimeError), ..self },
            Outcome::Error { line: self.chunk().line_at(self.frame().ip as int), message },
        )
    }

    pub open spec fn proceed(self) -> (Machine, Outcome) {
        (self, Outcome::Continue)
    }

    pub open spec fn with_stack(self, stack: Seq<Value>) -> Machine {
        Machine { stack, ..self }
    }

    /// The value `distance` places below the top of the stack.
    pub open spec fn peek(self, distance: int) -> Value {
        self.stack[self.stack.len() - 1 - distance]
    }

    /// The text of the string constant `k`, where the constant `k` of the
    /// running chunk is a string of the string table.
    pub open spec fn name_constant(self, k: u32) -> Option<StrId> {
        if k < self.chunk().constants.len() {
            match self.chunk().constants[k as int] {
                Value::String(id) => if self.runtime.interner.has_id(id) {
                    Some(id)
                } else {
                    None
                },
                _ => None,
            }
        } else {
            None
        }
    }

    /// How a value is written out.
    pub open spec fn piece(self, value: Value) -> Piece {
        match value {
            Value::Nil => Piece::Text("undefined"@),
            Value::Bool(b) => Piece::Text(
                if b {
                    "true"@
                } else {
                    "false"@
                },
            ),
            Value::Number(bits) => Piece::Number(bits),
            Value::String(id) => Piece::Text(self.runtime.interner.text(id)),
            Value::Function(id) => Piece::Text(self.function_text(id)),
            Value::Closure(id) => Piece::Text(self.function_text(id)),
        }
    }

    /// How the function with identity `id` is written out.
    pub open spec fn function_text(self, id: u32) -> Seq<char> {
        let name = self.runtime.closures[id as int].function.name;
        if name.len() == 0 {
            "<fn> "@ + "<global context>"@
        } else {
            "<fn> "@ + name
        }
    }

    /// Whether a value can be written out: its string or function is in
    /// the tables.
    pub open spec fn writable(self, value: Value) -> bool {
        match value {
            Value::String(id) => self.runtime.interner.has_id(id),
            Value::Function(id) => self.runtime.has_closure(id),
            Value::Closure(id) => self.runtime.has_closure(id),
            _ => true,
        }
    }

    pub open spec fn pieces(self, values: Seq<Value>) -> Seq<Piece> {
        Seq::new(values.len(), |i: int| self.piece(values[i]))
    }

    pub open spec fn all_writable(self, values: Seq<Value>) -> bool {
        forall|i: int| 0 <= i < values.len() ==> self.writable(#[trigger] values[i])
    }

    /// CONSTANT: pushes the constant `k`, if there is one.
    pub open spec fn op_constant(self, k: u32) -> (Machine, Outcome) {
        if k < self.chunk().constants.len() {
            self.with_stack(self.stack.push(self.chunk().constants[k as int])).proceed()
        } else {
            self.proceed()
        }
    }

    /// NIL, TRUE, FALSE: pushes the value.
    pub open spec fn op_push(self, value: Value) -> (Machine, Outcome) {
        self.with_stack(self.stack.push(value)).proceed()
    }

    /// POP: discards the top.
    pub open spec fn op_pop(self) -> (Machine, Outcome) {
        self.with_stack(without_top(self.stack, 1)).proceed()
    }

    /// ADD, SUBTRACT, MULTIPLY with the preposition byte `marker`.
    ///
    /// With `a` below `b` on the stack: after PREPOSITION_LEFT the host is
    /// asked for `b op a`, after PREPOSITION_RIGHT for `a op b`. Two strings
    /// are joined by ADD, `a` first.
    pub open spec fn op_arithmetic(self, op: ArithmeticOp, marker: u8) -> (Machine, Outcome) {
        if self.stack.len() < 2 {
            self.fail(stack_underflow())
        } else {
            match (self.peek(1), self.peek(0)) {
                (Value::Number(a), Value::Number(b)) => {
                    if marker == opcode::PREPOSITION_LEFT {
                        let request = Request { op, left: b, right: a };
                        (Machine { pending: Some(request), ..self }, Outcome::Arithmetic(request))
                    } else if marker == opcode::PREPOSITION_RIGHT {
                        let request = Request { op, left: a, right: b };
                        (Machine { pending: Some(request), ..self }, Outcome::Arithmetic(request))
                    } else {
                        self.fail("invalid preposition."@)
                    }
                },
                (Value::String(a), Value::String(b)) => {
                    if op != ArithmeticOp::Add {
                        self.fail("two string can only be added"@)
                    } else if !self.runtime.interner.has_id(a) || !self.runtime.interner.has_id(b) {
                        self.fail(unknown_string())
                    } else {
                        let joined = self.runtime.interner.text(a) + self.runtime.interner.text(b);
                        if self.runtime.interner.has_room() || self.runtime.interner.knows(joined) {
                            Machine {
                                stack: without_top(self.stack, 2).push(
                                    Value::String(self.runtime.interner.id_of(joined)),
                                ),
                                runtime: RuntimeView {
                                    interner: self.runtime.interner.with(joined),
                                    ..self.runtime
                                },
                                ..self
                            }.proceed()
                        } else {
                            self.fail("too many strings."@)
                        }
                    }
                },
                _ => self.fail(operands_must_be_numbers()),
            }
        }
    }

    /// The host's answer to a request: the two operands give way to the
    /// number `bits`. A machine that does not wait is left as it is.
    pub open spec fn resumed(self, bits: u64) -> Machine {
        if self.pending is Some {
            Machine { stack: without_top(self.stack, 2).push(Value::Number(bits)), pending: None, ..self }
        } else {
            self
        }
    }

    /// INVERT: replaces the top by whether it is falsy.
    pub open spec fn op_invert(self) -> (Machine, Outcome) {
        if self.stack.len() == 0 {
            self.fail("not match expression after 變"@)
        } else {
            self.with_stack(without_top(self.stack, 1).push(Value::Bool(falsy(self.peek(0))))).proceed()
        }
    }

    /// EQUAL_EQUAL: replaces the two topmost values by whether they are
    /// equal.
    pub open spec fn op_equal(self) -> (Machine, Outcome) {
        if self.stack.len() >= 2 {
            self.with_stack(
                without_top(self.stack, 2).push(Value::Bool(values_equal(self.peek(1), self.peek(0)))),
            ).proceed()
        } else {
            self.with_stack(Seq::empty()).proceed()
        }
    }

    /// LESS and GREATER: with `a` below `b`, replaces both by `a < b`, or
    /// by `b < a` where `greater` is set. Both must be numbers.
    pub open spec fn op_compare(self, greater: bool) -> (Machine, Outcome) {
        if self.stack.len() >= 2 {
            match (self.peek(1), self.peek(0)) {
                (Value::Number(a), Value::Number(b)) => self.with_stack(
                    without_top(self.stack, 2).push(
                        Value::Bool(
                            if greater {
                                number_less(b, a)
                            } else {
                                number_less(a, b)
                            },
                        ),
                    ),
                ).proceed(),
                _ => self.fail(operands_must_be_numbers()),
            }
        } else {
            self.with_stack(Seq::empty()).proceed()
        }
    }

    /// AND and OR: replaces the two topmost values by whether both, or
    /// where `any` is set whether one of them, is truthy.
    pub open spec fn op_logic(self, any: bool) -> (Machine, Outcome) {
        if self.stack.len() >= 2 {
            let a = !falsy(self.peek(0));
            let b = !falsy(self.peek(1));
            self.with_stack(
                without_top(self.stack, 2).push(
                    Value::Bool(
                        if any {
                            a || b
                        } else {
                            a && b
                        },
                    ),
                ),
            ).proceed()
        } else {
            self.with_stack(Seq::empty()).proceed()
        }
    }

    /// PRINT: takes the values above the topmost function or closure off
    /// the stack and has them printed, the lowest first.
    pub open spec fn op_print(self) -> (Machine, Outcome) {
        let from = print_from(self.stack);
        let values = self.stack.skip(from);
        if self.all_writable(values) {
            (self.with_stack(self.stack.take(from)), Outcome::Print(self.pieces(values)))
        } else {
            self.fail(unknown_string())
        }
    }

    /// DEFINE_GLOBAL: the global named by constant `k` becomes the value
    /// `offset` places below the top.
    pub open spec fn op_define_global(self, k: u32, offset: u8) -> (Machine, Outcome) {
        match self.name_constant(k) {
            Some(id) => if offset < self.stack.len() {
                Machine { globals: self.globals.insert(id.0, self.peek(offset as int)), ..self }.proceed()
            } else {
                self.fail(stack_underflow())
            },
            None => self.fail(unknown_string()),
        }
    }

    /// GET_GLOBAL: pushes the global named by constant `k`.
    pub open spec fn op_get_global(self, k: u32) -> (Machine, Outcome) {
        match self.name_constant(k) {
            Some(id) => if self.globals.contains_key(id.0) {
                self.with_stack(self.stack.push(self.globals[id.0])).proceed()
            } else {
                self.fail(undefined_variable(self.runtime.interner.text(id)))
            },
            None => self.fail(unknown_string()),
        }
    }

    /// SET_GLOBAL: the global named by constant `k` becomes the top, which
    /// is taken off.
    pub open spec fn op_set_global(self, k: u32) -> (Machine, Outcome) {
        match self.name_constant(k) {
            Some(id) => if self.stack.len() > 0 {
                Machine {
                    globals: self.globals.insert(id.0, self.peek(0)),
                    stack: without_top(self.stack, 1),
                    ..self
                }.proceed()
            } else {
                self.fail(undefined_variable(self.runtime.interner.text(id)))
            },
            None => self.fail(unknown_string()),
        }
    }

    /// DEFINE_LOCAL: pushes the value `offset` places below the top onto
    /// the local stack.
    pub open spec fn op_define_local(self, offset: u8) -> (Machine, Outcome) {
        if offset < self.stack.len() {
            Machine { locals: self.locals.push(self.peek(offset as int)), ..self }.proceed()
        } else {
            self.fail(stack_underflow())
        }
    }

    /// Index in the local stack of the slot `slot` of the running frame.
    pub open spec fn local_index(self, slot: u32) -> int {
        self.frame().local_slot_begin + slot
    }

    /// GET_LOCAL: pushes the local in `slot`, if there is one.
    pub open spec fn op_get_local(self, slot: u32) -> (Machine, Outcome) {
        if self.local_index(slot) < self.locals.len() {
            self.with_stack(self.stack.push(self.locals[self.local_index(slot)])).proceed()
        } else {
            self.proceed()
        }
    }

    /// SET_LOCAL: the local in `slot`, if there is one, becomes the top,
    /// which is taken off.
    pub open spec fn op_set_local(self, slot: u32) -> (Machine, Outcome) {
        if self.local_index(slot) < self.locals.len() && self.stack.len() > 0 {
            Machine {
                locals: self.locals.update(self.local_index(slot), self.peek(0)),
                stack: without_top(self.stack, 1),
                ..self
            }.proceed()
        } else {
            self.proceed()
        }
    }

    /// POP_LOCAL: discards the top local.
    pub open spec fn op_pop_local(self) -> (Machine, Outcome) {
        Machine { locals: without_top(self.locals, 1), ..self }.proceed()
    }

    /// JUMP: moves the instruction pointer forward by `offset`.
    pub open spec fn op_jump(self, offset: u32) -> (Machine, Outcome) {
        if self.frame().ip + offset <= usize::MAX {
            self.jump_to((self.frame().ip + offset) as usize).proceed()
        } else {
            self.fail(bad_jump())
        }
    }

    /// JUMP_IF_FALSE: jumps where the top is falsy; the top stays.
    pub open spec fn op_jump_if_false(self, offset: u32) -> (Machine, Outcome) {
        if self.stack.len() > 0 && falsy(self.peek(0)) {
            self.op_jump(offset)
        } else {
            self.proceed()
        }
    }

    /// LOOP: moves the instruction pointer back by `offset + 1`.
    pub open spec fn op_loop(self, offset: u32) -> (Machine, Outcome) {
        if self.frame().ip >= offset + 1 {
            self.jump_to((self.frame().ip - offset - 1) as usize).proceed()
        } else {
            self.fail(bad_jump())
        }
    }

    /// RECORD_BREAK: pushes the break target `offset` bytes ahead.
    pub open spec fn op_record_break(self, offset: u32) -> (Machine, Outcome) {
        if self.frame().ip + offset <= usize::MAX {
            Machine { breaks: self.breaks.push((self.frame().ip + offset) as usize), ..self }.proceed()
        } else {
            self.fail(bad_jump())
        }
    }

    /// BREAK: jumps to the topmost break target, which stays.
    pub open spec fn op_break(self) -> (Machine, Outcome) {
        if self.breaks.len() > 0 {
            self.jump_to(self.breaks.last()).proceed()
        } else {
            self.fail("no loop to break."@)
        }
    }

    /// DISCARD_BREAK: discards the topmost break target.
    pub open spec fn op_discard_break(self) -> (Machine, Outcome) {
        Machine { breaks: self.breaks.take(if self.breaks.len() > 0 { self.breaks.len() - 1 } else { 0 }), ..self }.proceed()
    }

    /// The frame that a call with `arity` arguments opens for the function
    /// `id`: the callee is the lowest value of its part of the stack.
    pub open spec fn called_frame(self, id: u32, arity: u32) -> Frame {
        Frame {
            ip: 0,
            closure_id: id,
            slot_begin: (self.stack.len() - 1 - arity) as usize,
            local_slot_begin: self.locals.len() as usize,
        }
    }

    /// CALL: opens a frame for the function that lies `arity` places below
    /// the top, if it takes `arity` arguments.
    pub open spec fn op_call(self, arity: u32) -> (Machine, Outcome) {
        if arity >= self.stack.len() {
            self.fail(stack_underflow())
        } else {
            let callee = self.peek(arity as int);
            let id = match callee {
                Value::Function(id) => Some(id),
                Value::Closure(id) => Some(id),
                _ => None,
            };
            if id is Some && self.runtime.has_closure(id->0) {
                let expected = self.runtime.closures[id->0 as int].function.arity;
                if expected == arity {
                    Machine {
                        runtime: RuntimeView {
                            frames: self.runtime.frames.push(self.called_frame(id->0, arity)),
                            ..self.runtime
                        },
                        ..self
                    }.proceed()
                } else {
                    self.fail(wrong_arity(expected as nat, arity as nat))
                }
            } else {
                self.fail(not_callable())
            }
        }
    }

    /// RETURN: closes the running frame. Its part of both stacks is cut
    /// off; the value that was on top is pushed for the caller. Where no
    /// frame is left the run is over.
    pub open spec fn op_return(self) -> (Machine, Outcome) {
        let frame = self.frame();
        let frames = self.runtime.frames.drop_last();
        let stack = cut(without_top(self.stack, 1), frame.slot_begin as int);
        let locals = cut(self.locals, frame.local_slot_begin as int);
        let runtime = RuntimeView { frames, ..self.runtime };
        if frames.len() == 0 {
            (
                Machine { stack, locals, runtime, status: Some(InterpretStatus::Success), ..self },
                Outcome::Done(InterpretStatus::Success),
            )
        } else if self.stack.len() == 0 {
            self.fail(stack_underflow())
        } else {
            Machine { stack: stack.push(self.peek(0)), locals, runtime, ..self }.proceed()
        }
    }

    /// What the instruction with opcode `op` does; its operands stand at
    /// `at` in the running chunk, and the instruction pointer stands behind
    /// them.
    pub open spec fn execute(self, op: u8, at: int) -> (Machine, Outcome) {
        let code = self.chunk().code;
        if op == opcode::RETURN {
            self.op_return()
        } else if op == opcode::CONSTANT {
            self.op_constant(le_value(code, at))
        } else if op == opcode::NIL {
            self.op_push(Value::Nil)
        } else if op == opcode::TRUE {
            self.op_push(Value::Bool(true))
        } else if op == opcode::FALSE {
            self.op_push(Value::Bool(false))
        } else if op == opcode::POP {
            self.op_pop()
        } else if op == opcode::ADD {
            self.op_arithmetic(ArithmeticOp::Add, code[at])
        } else if op == opcode::SUBTRACT {
            self.op_arithmetic(ArithmeticOp::Subtract, code[at])
        } else if op == opcode::MULTIPLY {
            self.op_arithmetic(ArithmeticOp::Multiply, code[at])
        } else if op == opcode::INVERT {
            self.op_invert()
        } else if op == opcode::EQUAL_EQUAL {
            self.op_equal()
        } else if op == opcode::GREATER {
            self.op_compare(true)
        } else if op == opcode::LESS {
            self.op_compare(false)
        } else if op == opcode::AND {
            self.op_logic(false)
        } else if op == opcode::OR {
            self.op_logic(true)
        } else if op == opcode::PRINT {
            self.op_print()
        } else if op == opcode::DEFINE_GLOBAL {
            self.op_define_global(le_value(code, at), code[at + 4])
        } else if op == opcode::GET_GLOBAL {
            self.op_get_global(le_value(code, at))
        } else if op == opcode::SET_GLOBAL {
            self.op_set_global(le_value(code, at))
        } else if op == opcode::DEFINE_LOCAL {
            self.op_define_local(code[at])
        } else if op == opcode::GET_LOCAL {
            self.op_get_local(le_value(code, at))
        } else if op == opcode::SET_LOCAL {
            self.op_set_local(le_value(code, at))
        } else if op == opcode::POP_LOCAL {
            self.op_pop_local()
        } else if op == opcode::JUMP_IF_FALSE {
            self.op_jump_if_false(le_value(code, at))
        } else if op == opcode::JUMP {
            self.op_jump(le_value(code, at))
        } else if op == opcode::LOOP {
            self.op_loop(le_value(code, at))
        } else if op == opcode::RECORD_BREAK {
            self.op_record_break(le_value(code, at))
        } else if op == opcode::BREAK {
            self.op_break()
        } else if op == opcode::DISCARD_BREAK {
            self.op_discard_break()
        } else if op == opcode::CALL {
            self.op_call(le_value(code, at))
        } else {
            self.proceed()
        }
    }

    /// One step. A machine whose run is over, or that waits for the host,
    /// says so and stays as it is. Otherwise the instruction at the
    /// instruction pointer is read, the pointer moves behind it, and the
    /// instruction is executed. An error is reported for the line of the
    /// instruction.
    pub open spec fn step(self) -> (Machine, Outcome) {
        if self.status is Some {
            (self, Outcome::Done(self.status->0))
        } else if self.pending is Some {
            (self, Outcome::Arithmetic(self.pending->0))
        } else if self.runtime.frames.len() == 0 {
            (self, Outcome::Done(InterpretStatus::Success))
        } else {
            let code = self.chunk().code;
            let ip = self.frame().ip;
            if ip >= code.len() {
                self.fail("instruction pointer out of range."@)
            } else if ip + 1 + operand_width(code[ip as int]) > code.len() {
                self.fail("truncated instruction."@)
            } else {
                let (next, outcome) = self.jump_to((ip + 1 + operand_width(code[ip as int])) as usize).execute(
                    code[ip as int],
                    ip + 1,
                );
                (next, outcome.at_line(self.chunk().line_at(ip as int)))
            }
        }
    }

    /// The machine after at most `fuel` steps: it stops before `fuel` is
    /// used up as soon as a step has something to tell the host.
    pub open spec fn run(self, fuel: nat) -> (Machine, Outcome)
        decreases fuel,
    {
        if fuel == 0 {
            (self, Outcome::Continue)
        } else {
            let (next, outcome) = self.step();
            if outcome is Continue {
                next.run((fuel - 1) as nat)
            } else {
                (next, outcome)
            }
        }
    }
}

/// Call stack balance. After a call that succeeded, a return from the
/// frame that the call opened closes that frame and no other, leaves below
/// the callee what the value stack held there at the call, leaves the local
/// stack as it was at the call, and pushes the returned value: the caller
/// goes on behind its call with the result in place of callee and
/// arguments.
///
/// The stacks at the call have lengths that the machine can count.
/// `inside` is any state in which the opened frame runs: the frames are
/// those that the call left, whatever the instruction pointer of the top
/// frame; the value stack holds a value above what was below the callee,
/// and the local stack begins with the locals of the call.
pub proof fn lemma_call_return_balance(before: Machine, arity: u32, inside: Machine)
    requires
        before.valid(),
        before.running(),
        before.stack.len() <= usize::MAX,
        before.locals.len() <= usize::MAX,
        before.op_call(arity).1 is Continue,
        inside.running(),
        inside.runtime.frames.len() == before.op_call(arity).0.runtime.frames.len(),
        inside.runtime.frames.drop_last() == before.runtime.frames,
        inside.frame().slot_begin == before.op_call(arity).0.frame().slot_begin,
        inside.frame().local_slot_begin == before.op_call(arity).0.frame().local_slot_begin,
        inside.runtime.closures == before.runtime.closures,
        inside.stack.len() > before.stack.len() - 1 - arity,
        inside.stack.take(before.stack.len() - 1 - arity) == before.stack.take(before.stack.len() - 1 - arity),
        inside.locals.len() >= before.locals.len(),
        inside.locals.take(before.locals.len() as int) == before.locals,
    ensures
        before.op_call(arity).0.runtime.frames.len() == before.runtime.frames.len() + 1,
        before.op_call(arity).0.stack == before.stack,
        before.op_call(arity).0.locals == before.locals,
        inside.op_return().1 is Continue,
        inside.op_return().0.runtime.frames == before.runtime.frames,
        inside.op_return().0.stack == before.stack.take(before.stack.len() - 1 - arity).push(inside.peek(0)),
        inside.op_return().0.locals == before.locals,
{
    let called = before.op_call(arity).0;
    let below = before.stack.len() - 1 - arity;
    assert(arity < before.stack.len());
    assert(called.frame().slot_begin == below);
    assert(called.frame().local_slot_begin == before.locals.len());
    let popped = without_top(inside.stack, 1);
    assert(cut(popped, below) =~= before.stack.take(below)) by {
        assert(popped.take(below) =~= inside.stack.take(below));
    }
    assert(cut(inside.locals, before.locals.len() as int) =~= before.locals);
}

/// Break: a break jumps to the target that the last RECORD_BREAK pushed,
/// which is `offset` bytes behind that instruction, and changes neither
/// the value stack nor the local stack nor the break targets.
pub proof fn lemma_break_reaches_recorded_target(at_record: Machine, offset: u32, at_break: Machine)
    requires
        at_record.running(),
        at_record.op_record_break(offset).1 is Continue,
        at_break.running(),
        at_break.breaks == at_record.op_record_break(offset).0.breaks,
    ensures
        at_break.op_break().1 is Continue,
        at_break.op_break().0.frame().ip == at_record.frame().ip + offset,
        at_break.op_break().0.stack == at_break.stack,
        at_break.op_break().0.locals == at_break.locals,
        at_break.op_break().0.breaks == at_break.breaks,
{
}

/// Arithmetic preposition. With the number `a` below the number `b` on the
/// stack, an arithmetic instruction marked PREPOSITION_LEFT asks the host
/// for `b op a`, and one marked PREPOSITION_RIGHT for `a op b`; the
/// answer takes the place of both operands.
pub proof fn lemma_preposition_order(machine: Machine, op: ArithmeticOp, a: u64, b: u64, answer: u64)
    requires
        machine.running(),
        machine.stack.len() >= 2,
        machine.peek(1) == Value::Number(a),
        machine.peek(0) == Value::Number(b),
    ensures
        machine.op_arithmetic(op, opcode::PREPOSITION_LEFT).1 == Outcome::Arithmetic(
            Request { op, left: b, right: a },
        ),
        machine.op_arithmetic(op, opcode::PREPOSITION_RIGHT).1 == Outcome::Arithmetic(
            Request { op, left: a, right: b },
        ),
        machine.op_arithmetic(op, opcode::PREPOSITION_LEFT).0.resumed(answer).stack == without_top(
            machine.stack,
            2,
        ).push(Value::Number(answer)),
        machine.op_arithmetic(op, opcode::PREPOSITION_RIGHT).0.resumed(answer).stack == without_top(
            machine.stack,
            2,
        ).push(Value::Number(answer)),
        machine.op_arithmetic(op, opcode::PREPOSITION_LEFT).0.resumed(answer).running(),
{
}

/// Jump well-formedness. In a valid chunk, executing a jump instruction
/// leaves the instruction pointer on the first byte of an instruction:
/// JUMP and LOOP at their target, JUMP_IF_FALSE at its target or, where it
/// does not jump, behind itself if code follows. The target that
/// RECORD_BREAK pushes is the first byte of an instruction too.
pub proof fn lemma_jump_lands_on_opcode(machine: Machine)
    requires
        machine.running(),
        machine.chunk().code.len() <= usize::MAX,
        well_formed(machine.chunk().code),
        is_instruction_start(machine.chunk().code, machine.frame().ip as int),
        opcode::is_jump(machine.chunk().code[machine.frame().ip as int]),
    ensures
        ({
            let code = machine.chunk().code;
            let at = machine.frame().ip as int;
            let (next, outcome) = machine.step();
            &&& outcome is Continue
            &&& next.chunk() == machine.chunk()
            &&& code[at] == opcode::JUMP || code[at] == opcode::LOOP ==> next.frame().ip == jump_target(code, at)
                && is_instruction_start(code, next.frame().ip as int)
            &&& code[at] == opcode::JUMP_IF_FALSE ==> next.frame().ip == jump_target(code, at)
                && is_instruction_start(code, next.frame().ip as int) || next.frame().ip == at + 5 && (at + 5
                == code.len() || is_instruction_start(code, at + 5))
            &&& code[at] == opcode::RECORD_BREAK ==> next.breaks.len() > 0 && next.breaks.last()
                == jump_target(code, at) && is_instruction_start(code, next.breaks.last() as int)
        }),
{
    let code = machine.chunk().code;
    let at = machine.frame().ip as int;
    lemma_reaches_next(code, at, code.len() as int);
    assert(is_instruction_start(code, jump_target(code, at)));
    let moved = machine.jump_to((at + 5) as usize);
    assert(moved.chunk() == machine.chunk());
    assert(moved.frame().ip == at + 5);
}

/// A step keeps a valid machine valid.
pub proof fn lemma_step_keeps_valid(machine: Machine)
    requires
        machine.valid(),
    ensures
        machine.step().0.valid(),
{
    if machine.running() {
        let code = machine.chunk().code;
        let ip = machine.frame().ip;
        if ip < code.len() && ip + 1 + operand_width(code[ip as int]) <= code.len() {
            let moved = machine.jump_to((ip + 1 + operand_width(code[ip as int])) as usize);
            lemma_execute_keeps_valid(moved, code[ip as int], ip + 1);
        }
    }
}

proof fn lemma_execute_keeps_valid(machine: Machine, op: u8, at: int)
    requires
        machine.valid(),
        machine.running(),
    ensures
        machine.execute(op, at).0.valid(),
{
    let code = machine.chunk().code;
    if op == opcode::ADD || op == opcode::SUBTRACT || op == opcode::MULTIPLY {
        if machine.stack.len() >= 2 {
            match (machine.peek(1), machine.peek(0)) {
                (Value::String(a), Value::String(b)) => {
                    if machine.runtime.interner.has_id(a) && machine.runtime.interner.has_id(b) {
                        let joined = machine.runtime.interner.text(a) + machine.runtime.interner.text(b);
                        if machine.runtime.interner.has_room() || machine.runtime.interner.knows(joined) {
                            crate::interner::lemma_intern_sound(machine.runtime.interner, joined);
                        }
                    }
                },
                _ => {},
            }
        }
    } else if op == opcode::RETURN {
        let frames = machine.runtime.frames.drop_last();
        assert forall|i: int| 0 <= i < frames.len() implies (#[trigger] frames[i]).closure_id
            < machine.runtime.closures.len() by {
            assert(frames[i] == machine.runtime.frames[i]);
        }
    }
}

} // verus!
