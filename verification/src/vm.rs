//! The virtual machine: executes one instruction at a time as `Machine`
//! says, on vectors and a hash map.

use std::collections::HashMap;
use vstd::prelude::*;
use vstd::string::StringExecFns;
use crate::chunk::Chunk;
use crate::decimal::decimal_text;
use crate::interner::StrId;
use crate::interpreter::{CallFrame, Frame, InterpretStatus, Runtime, RuntimeView};
use crate::machine::{
    cut, error_text, joined, print_from, undefined_variable, without_top, ArithmeticOp, Machine, Outcome, Piece,
    Request,
};
use crate::object::{Closure, ClosureId};
use crate::opcode;
use crate::value::{callable, is_falsy, is_function_or_closure, number_lt, value_equal, Value};

verus! {

broadcast use vstd::std_specs::hash::group_hash_axioms;

/// How the host drives the machine: in `Debug` it gets control back after
/// every instruction.
#[derive(Debug, Clone, Copy, PartialEq, Eq, Structural)]
pub enum VMMode {
    Debug,
    Run,
}

/// One printed value: its text, or a number that the host writes out.
#[derive(Debug)]
pub enum Printed {
    Text(String),
    Number(u64),
}

impl View for Printed {
    type V = Piece;

    open spec fn view(&self) -> Piece {
        match self {
            Printed::Text(text) => Piece::Text(text@),
            Printed::Number(bits) => Piece::Number(*bits),
        }
    }
}

/// What one step of the machine tells the host.
#[derive(Debug)]
pub enum Event {
    Continue,
    Print(Vec<Printed>),
    Arithmetic(Request),
    Error { line: usize, message: String },
    Done(InterpretStatus),
}

impl View for Event {
    type V = Outcome;

    open spec fn view(&self) -> Outcome {
        match self {
            Event::Continue => Outcome::Continue,
            Event::Print(pieces) => Outcome::Print(Seq::new(pieces@.len(), |i: int| pieces@[i]@)),
            Event::Arithmetic(request) => Outcome::Arithmetic(*request),
            Event::Error { line, message } => Outcome::Error { line: *line, message: message@ },
            Event::Done(status) => Outcome::Done(*status),
        }
    }
}

/// The line that a print writes: the texts of the printed values with a
/// single space between two of them.
pub fn join_line(parts: &Vec<String>) -> (line: String)
    ensures
        line@ == joined(Seq::new(parts@.len(), |i: int| parts@[i]@)),
{
    let ghost texts = Seq::new(parts@.len(), |i: int| parts@[i]@);
    let mut line = String::new();
    let mut i: usize = 0;
    assert(texts.take(0) =~= Seq::<Seq<char>>::empty());
    while i < parts.len()
        invariant
            i <= parts@.len(),
            texts == Seq::new(parts@.len(), |i: int| parts@[i]@),
            line@ == joined(texts.take(i as int)),
        decreases parts@.len() - i,
    {
        proof {
            assert(texts.take(i + 1).drop_last() =~= texts.take(i as int));
            assert(texts.take(i + 1).last() == parts@[i as int]@);
        }
        if i > 0 {
            line.append(" ");
        } else {
            assert(texts.take(1)[0] == parts@[0]@);
            assert(Seq::<char>::empty() + parts@[0]@ =~= parts@[0]@);
        }
        line.append(parts[i].as_str());
        i += 1;
    }
    assert(texts.take(i as int) =~= texts);
    line
}

/// The line that is written for a runtime error on line `line`.
pub fn render_error(line: usize, message: &str) -> (text: String)
    ensures
        text@ == error_text(line, message@),
{
    let mut text = String::from_str("[line ");
    text.append(decimal_text(line).as_str());
    text.append("] error: ");
    text.append(message);
    text
}

pub struct VM {
    stack: Vec<Value>,
    local_stack: Vec<Value>,
    runtime: Runtime,
    globals: HashMap<u32, Value>,
    break_points: Vec<usize>,
    pending: Option<Request>,
    status: Option<InterpretStatus>,
}

impl View for VM {
    type V = Machine;

    closed spec fn view(&self) -> Machine {
        Machine {
            stack: self.stack@,
            locals: self.local_stack@,
            breaks: self.break_points@,
            globals: self.globals@,
            runtime: self.runtime@,
            pending: self.pending,
            status: self.status,
        }
    }
}

impl VM {
    /// The state of the machine is valid.
    pub open spec fn wf(&self) -> bool {
        self@.valid()
    }

    pub fn new(runtime: Runtime) -> (vm: VM)
        requires
            runtime@.valid(),
        ensures
            vm@ == Machine::initial(runtime@),
            vm.wf(),
    {
        Self {
            stack: Vec::new(),
            local_stack: Vec::new(),
            runtime,
            globals: HashMap::new(),
            break_points: Vec::new(),
            pending: None,
            status: None,
        }
    }

    pub fn frame(&self) -> (frame: &CallFrame)
        requires
            self@.runtime.frames.len() > 0,
        ensures
            frame@ == self@.frame(),
    {
        self.runtime.current_frame()
    }

    pub fn get_closure(&self) -> (closure: &Closure)
        requires
            self.wf(),
            self@.runtime.frames.len() > 0,
        ensures
            closure@ == self@.runtime.closures[self@.frame().closure_id as int],
    {
        let closure_id = self.frame().closure_id();
        self.runtime.get_closure(&closure_id)
    }

    /// Puts the script on the stack and opens the frame that runs it.
    pub fn setup_first_frame(&mut self, closure_id: ClosureId)
        requires
            old(self).wf(),
            old(self)@.runtime.has_closure(closure_id),
        ensures
            final(self).wf(),
            final(self)@ == (Machine {
                stack: old(self)@.stack.push(Value::Closure(closure_id)),
                runtime: RuntimeView {
                    frames: old(self)@.runtime.frames.push(
                        Frame {
                            ip: 0,
                            closure_id,
                            slot_begin: old(self)@.stack.len() as usize,
                            local_slot_begin: old(self)@.locals.len() as usize,
                        },
                    ),
                    ..old(self)@.runtime
                },
                ..old(self)@
            }),
    {
        self.stack.push(Value::Closure(closure_id));
        self.runtime.begin_frame(closure_id, self.stack.len() - 1, self.local_stack.len());
    }

    /// Offset in the running chunk of the next byte to read.
    pub fn ip(&self) -> (ip: usize)
        requires
            self@.runtime.frames.len() > 0,
        ensures
            ip == self@.frame().ip,
    {
        self.frame().ip()
    }

    pub fn set_ip(&mut self, ip: usize)
        requires
            old(self)@.runtime.frames.len() > 0,
            old(self).wf(),
        ensures
            final(self)@ == old(self)@.jump_to(ip),
            final(self).wf(),
    {
        let ghost before = self@;
        let frame = self.runtime.current_frame_mut();
        frame.set_ip(ip);
        proof {
            assert(self@.runtime.frames =~= before.jump_to(ip).runtime.frames);
            assert(self@.runtime == before.jump_to(ip).runtime);
        }
    }

    /// Moves the instruction pointer forward by `offset`.
    pub fn add_ip(&mut self, offset: usize)
        requires
            old(self).wf(),
            old(self)@.runtime.frames.len() > 0,
            old(self)@.frame().ip + offset <= usize::MAX,
        ensures
            final(self)@ == old(self)@.jump_to((old(self)@.frame().ip + offset) as usize),
            final(self).wf(),
    {
        let ip = self.ip();
        self.set_ip(ip + offset);
    }

    /// Moves the instruction pointer back by `offset`.
    pub fn sub_ip(&mut self, offset: usize)
        requires
            old(self).wf(),
            old(self)@.runtime.frames.len() > 0,
            old(self)@.frame().ip >= offset,
        ensures
            final(self)@ == old(self)@.jump_to((old(self)@.frame().ip - offset) as usize),
            final(self).wf(),
    {
        let ip = self.ip();
        self.set_ip(ip - offset);
    }

    /// The chunk of the function that runs.
    pub fn chunk(&self) -> (chunk: &Chunk)
        requires
            self.wf(),
            self@.runtime.frames.len() > 0,
        ensures
            chunk@ == self@.chunk(),
    {
        self.runtime.current_chunk()
    }

    /// Index in the local stack of the slot `slot` of the running frame.
    pub fn normalize_local_slot(&self, slot: usize) -> (index: usize)
        requires
            self@.runtime.frames.len() > 0,
            self@.frame().local_slot_begin + slot <= usize::MAX,
        ensures
            index == self@.frame().local_slot_begin + slot,
    {
        self.frame().local_slot_begin() + slot
    }

    pub fn offset(&self) -> (offset: usize)
        requires
            self@.runtime.frames.len() > 0,
        ensures
            offset == self@.frame().ip,
    {
        self.ip()
    }

    /// The value `distance` places below the top of the stack.
    pub fn peek(&self, distance: usize) -> (value: Option<&Value>)
        ensures
            value is Some == (distance < self@.stack.len()),
            value is Some ==> *value->0 == self@.peek(distance as int),
    {
        if distance < self.stack.len() {
            Some(&self.stack[self.stack.len() - 1 - distance])
        } else {
            None
        }
    }

    /// Ends the run with a runtime error.
    fn runtime_error(&mut self, message: String) -> (event: Event)
        requires
            old(self).wf(),
            old(self)@.running(),
        ensures
            final(self).wf(),
            (final(self)@, event@) == old(self)@.fail(message@),
    {
        let line = self.chunk().get_line(self.ip());
        self.stack.clear();
        self.status = Some(InterpretStatus::RuntimeError);
        Event::Error { line, message }
    }

    fn fail(&mut self, message: &str) -> (event: Event)
        requires
            old(self).wf(),
            old(self)@.running(),
        ensures
            final(self).wf(),
            (final(self)@, event@) == old(self)@.fail(message@),
    {
        self.runtime_error(String::from_str(message))
    }

    /// Takes the `count` topmost values off the stack, or all where it has
    /// fewer.
    fn drop_top(&mut self, count: usize)
        requires
            old(self).wf(),
            old(self).pending is None,
        ensures
            final(self)@ == old(self)@.with_stack(without_top(old(self)@.stack, count as int)),
            final(self).wf(),
    {
        let len = self.stack.len();
        if len >= count {
            self.stack.truncate(len - count);
        } else {
            self.stack.clear();
        }
        assert(self@.stack =~= without_top(old(self)@.stack, count as int));
    }

    fn op_constant(&mut self, k: u32) -> (event: Event)
        requires
            old(self).wf(),
            old(self)@.running(),
        ensures
            final(self).wf(),
            (final(self)@, event@) == old(self)@.op_constant(k),
    {
        let chunk = self.runtime.current_chunk();
        if (k as usize) < chunk.constants().len() {
            let value = chunk.constants()[k as usize];
            self.stack.push(value);
        }
        Event::Continue
    }

    fn op_push(&mut self, value: Value) -> (event: Event)
        requires
            old(self).wf(),
            old(self)@.running(),
        ensures
            final(self).wf(),
            (final(self)@, event@) == old(self)@.op_push(value),
    {
        self.stack.push(value);
        Event::Continue
    }

    fn op_pop(&mut self) -> (event: Event)
        requires
            old(self).wf(),
            old(self)@.running(),
        ensures
            final(self).wf(),
            (final(self)@, event@) == old(self)@.op_pop(),
    {
        self.drop_top(1);
        Event::Continue
    }

    fn op_invert(&mut self) -> (event: Event)
        requires
            old(self).wf(),
            old(self)@.running(),
        ensures
            final(self).wf(),
            (final(self)@, event@) == old(self)@.op_invert(),
    {
        let len = self.stack.len();
        if len == 0 {
            return self.fail("not match expression after 變");
        }
        let top = self.stack[len - 1];
        self.drop_top(1);
        self.stack.push(Value::Bool(is_falsy(&top)));
        Event::Continue
    }

    fn op_equal(&mut self) -> (event: Event)
        requires
            old(self).wf(),
            old(self)@.running(),
        ensures
            final(self).wf(),
            (final(self)@, event@) == old(self)@.op_equal(),
    {
        let len = self.stack.len();
        if len >= 2 {
            let right = self.stack[len - 1];
            let left = self.stack[len - 2];
            self.drop_top(2);
            self.stack.push(Value::Bool(value_equal(left, right)));
        } else {
            self.stack.clear();
        }
        Event::Continue
    }

    fn op_compare(&mut self, greater: bool) -> (event: Event)
        requires
            old(self).wf(),
            old(self)@.running(),
        ensures
            final(self).wf(),
            (final(self)@, event@) == old(self)@.op_compare(greater),
    {
        let len = self.stack.len();
        if len >= 2 {
            let right = self.stack[len - 1];
            let left = self.stack[len - 2];
            match (left, right) {
                (Value::Number(a), Value::Number(b)) => {
                    let result = if greater {
                        number_lt(b, a)
                    } else {
                        number_lt(a, b)
                    };
                    self.drop_top(2);
                    self.stack.push(Value::Bool(result));
                    Event::Continue
                },
                _ => self.fail("Operands must be numbers."),
            }
        } else {
            self.stack.clear();
            Event::Continue
        }
    }

    fn op_logic(&mut self, any: bool) -> (event: Event)
        requires
            old(self).wf(),
            old(self)@.running(),
        ensures
            final(self).wf(),
            (final(self)@, event@) == old(self)@.op_logic(any),
    {
        let len = self.stack.len();
        if len >= 2 {
            let a = !is_falsy(&self.stack[len - 1]);
            let b = !is_falsy(&self.stack[len - 2]);
            let result = if any {
                a || b
            } else {
                a && b
            };
            self.drop_top(2);
            self.stack.push(Value::Bool(result));
        } else {
            self.stack.clear();
        }
        Event::Continue
    }

    fn op_define_local(&mut self, offset: u8) -> (event: Event)
        requires
            old(self).wf(),
            old(self)@.running(),
        ensures
            final(self).wf(),
            (final(self)@, event@) == old(self)@.op_define_local(offset),
    {
        let len = self.stack.len();
        if (offset as usize) < len {
            let value = self.stack[len - 1 - offset as usize];
            self.local_stack.push(value);
            Event::Continue
        } else {
            self.fail("stack underflow.")
        }
    }

    /// Index in the local stack of the slot `slot` of the running frame,
    /// where the local stack has it.
    fn local_slot(&self, slot: u32) -> (index: Option<usize>)
        requires
            self@.runtime.frames.len() > 0,
        ensures
            index is Some == (self@.local_index(slot) < self@.locals.len()),
            index is Some ==> index->0 == self@.local_index(slot),
    {
        let base = self.frame().local_slot_begin();
        let len = self.local_stack.len();
        if base < len && (slot as usize) < len - base {
            Some(base + slot as usize)
        } else {
            None
        }
    }

    fn op_get_local(&mut self, slot: u32) -> (event: Event)
        requires
            old(self).wf(),
            old(self)@.running(),
        ensures
            final(self).wf(),
            (final(self)@, event@) == old(self)@.op_get_local(slot),
    {
        if let Some(index) = self.local_slot(slot) {
            let value = self.local_stack[index];
            self.stack.push(value);
        }
        Event::Continue
    }

    fn op_set_local(&mut self, slot: u32) -> (event: Event)
        requires
            old(self).wf(),
            old(self)@.running(),
        ensures
            final(self).wf(),
            (final(self)@, event@) == old(self)@.op_set_local(slot),
    {
        if let Some(index) = self.local_slot(slot) {
            let len = self.stack.len();
            if len > 0 {
                let value = self.stack[len - 1];
                self.drop_top(1);
                self.local_stack[index] = value;
            }
        }
        Event::Continue
    }

    fn op_pop_local(&mut self) -> (event: Event)
        requires
            old(self).wf(),
            old(self)@.running(),
        ensures
            final(self).wf(),
            (final(self)@, event@) == old(self)@.op_pop_local(),
    {
        let _ = self.local_stack.pop();
        assert(self@.locals =~= without_top(old(self)@.locals, 1));
        Event::Continue
    }

    fn op_jump(&mut self, offset: u32) -> (event: Event)
        requires
            old(self).wf(),
            old(self)@.running(),
        ensures
            final(self).wf(),
            (final(self)@, event@) == old(self)@.op_jump(offset),
    {
        let ip = self.ip();
        if offset as usize <= usize::MAX - ip {
            self.set_ip(ip + offset as usize);
            Event::Continue
        } else {
            self.fail("jump out of range.")
        }
    }

    fn op_jump_if_false(&mut self, offset: u32) -> (event: Event)
        requires
            old(self).wf(),
            old(self)@.running(),
        ensures
            final(self).wf(),
            (final(self)@, event@) == old(self)@.op_jump_if_false(offset),
    {
        let len = self.stack.len();
        if len > 0 && is_falsy(&self.stack[len - 1]) {
            self.op_jump(offset)
        } else {
            Event::Continue
        }
    }

    fn op_loop(&mut self, offset: u32) -> (event: Event)
        requires
            old(self).wf(),
            old(self)@.running(),
        ensures
            final(self).wf(),
            (final(self)@, event@) == old(self)@.op_loop(offset),
    {
        let ip = self.ip();
        if ip > offset as usize {
            self.set_ip(ip - offset as usize - 1);
            Event::Continue
        } else {
            self.fail("jump out of range.")
        }
    }

    fn op_record_break(&mut self, offset: u32) -> (event: Event)
        requires
            old(self).wf(),
            old(self)@.running(),
        ensures
            final(self).wf(),
            (final(self)@, event@) == old(self)@.op_record_break(offset),
    {
        let ip = self.ip();
        if offset as usize <= usize::MAX - ip {
            self.break_points.push(ip + offset as usize);
            Event::Continue
        } else {
            self.fail("jump out of range.")
        }
    }

    fn op_break(&mut self) -> (event: Event)
        requires
            old(self).wf(),
            old(self)@.running(),
        ensures
            final(self).wf(),
            (final(self)@, event@) == old(self)@.op_break(),
    {
        let len = self.break_points.len();
        if len > 0 {
            let target = self.break_points[len - 1];
            self.set_ip(target);
            Event::Continue
        } else {
            self.fail("no loop to break.")
        }
    }

    fn op_discard_break(&mut self) -> (event: Event)
        requires
            old(self).wf(),
            old(self)@.running(),
        ensures
            final(self).wf(),
            (final(self)@, event@) == old(self)@.op_discard_break(),
    {
        let _ = self.break_points.pop();
        assert(self@.breaks =~= old(self)@.op_discard_break().0.breaks);
        Event::Continue
    }

    /// The string that the constant `k` of the running chunk names, where
    /// it names one of the string table.
    pub fn read_str(&self, k: u32) -> (name: Option<StrId>)
        requires
            self.wf(),
            self@.runtime.frames.len() > 0,
        ensures
            name == self@.name_constant(k),
    {
        let chunk = self.runtime.current_chunk();
        if (k as usize) < chunk.constants().len() {
            match chunk.constants()[k as usize] {
                Value::String(id) => {
                    if self.runtime.interner().has_id(id) {
                        Some(id)
                    } else {
                        None
                    }
                },
                _ => None,
            }
        } else {
            None
        }
    }

    /// The text of the string that the constant `k` of the running chunk
    /// names.
    pub fn read_string(&self, k: u32) -> (name: Option<String>)
        requires
            self.wf(),
            self@.runtime.frames.len() > 0,
        ensures
            name is Some == self@.name_constant(k) is Some,
            name is Some ==> name->0@ == self@.runtime.interner.text(self@.name_constant(k)->0),
    {
        match self.read_str(k) {
            Some(id) => Some(String::from_str(self.runtime.interner().lookup(id))),
            None => None,
        }
    }

    /// How the function with identity `id` is written out.
    fn function_text(&self, id: u32) -> (text: String)
        requires
            self@.runtime.has_closure(id),
        ensures
            text@ == self@.function_text(id),
    {
        let name = self.runtime.get_closure(&id).function().name();
        let mut text = String::from_str("<fn> ");
        if name.unicode_len() == 0 {
            text.append("<global context>");
        } else {
            text.append(name);
        }
        text
    }

    /// How `value` is written out; none where its string or function is
    /// not in the tables.
    pub fn format_value(&self, value: &Value) -> (printed: Option<Printed>)
        ensures
            printed is Some == self@.writable(*value),
            printed is Some ==> printed->0@ == self@.piece(*value),
    {
        match value {
            Value::Nil => Some(Printed::Text(String::from_str("undefined"))),
            Value::Bool(b) => {
                if *b {
                    Some(Printed::Text(String::from_str("true")))
                } else {
                    Some(Printed::Text(String::from_str("false")))
                }
            },
            Value::Number(bits) => Some(Printed::Number(*bits)),
            Value::String(id) => {
                if self.runtime.interner().has_id(*id) {
                    Some(Printed::Text(String::from_str(self.runtime.interner().lookup(*id))))
                } else {
                    None
                }
            },
            Value::Function(id) => {
                if self.runtime.has_closure(*id) {
                    Some(Printed::Text(self.function_text(*id)))
                } else {
                    None
                }
            },
            Value::Closure(id) => {
                if self.runtime.has_closure(*id) {
                    Some(Printed::Text(self.function_text(*id)))
                } else {
                    None
                }
            },
        }
    }

    fn binary_op(&mut self, op: ArithmeticOp, marker: u8) -> (event: Event)
        requires
            old(self).wf(),
            old(self)@.running(),
        ensures
            final(self).wf(),
            (final(self)@, event@) == old(self)@.op_arithmetic(op, marker),
    {
        let len = self.stack.len();
        if len < 2 {
            return self.fail("stack underflow.");
        }
        let left = self.stack[len - 2];
        let right = self.stack[len - 1];
        match (left, right) {
            (Value::Number(a), Value::Number(b)) => {
                if marker == opcode::PREPOSITION_LEFT {
                    let request = Request { op, left: b, right: a };
                    self.pending = Some(request);
                    Event::Arithmetic(request)
                } else if marker == opcode::PREPOSITION_RIGHT {
                    let request = Request { op, left: a, right: b };
                    self.pending = Some(request);
                    Event::Arithmetic(request)
                } else {
                    self.fail("invalid preposition.")
                }
            },
            (Value::String(a), Value::String(b)) => {
                if op != ArithmeticOp::Add {
                    return self.fail("two string can only be added");
                }
                if !self.runtime.interner().has_id(a) || !self.runtime.interner().has_id(b) {
                    return self.fail("not find this string in interner.");
                }
                let mut joined = String::from_str(self.runtime.interner().lookup(a));
                joined.append(self.runtime.interner().lookup(b));
                let interned = self.runtime.interner_mut().try_intern(joined.as_str());
                match interned {
                    Some(id) => {
                        self.drop_top(2);
                        self.stack.push(Value::String(id));
                        Event::Continue
                    },
                    None => self.fail("too many strings."),
                }
            },
            _ => self.fail("Operands must be numbers."),
        }
    }

    /// Gives the machine the result of the operation that it waits for:
    /// the two operands give way to the number `bits`. Says whether the
    /// machine was waiting.
    pub fn resume(&mut self, bits: u64) -> (accepted: bool)
        requires
            old(self).wf(),
        ensures
            final(self).wf(),
            final(self)@ == old(self)@.resumed(bits),
            accepted == old(self)@.pending is Some,
    {
        if self.pending.is_some() {
            self.pending = None;
            self.drop_top(2);
            self.stack.push(Value::Number(bits));
            true
        } else {
            false
        }
    }

    fn op_print(&mut self) -> (event: Event)
        requires
            old(self).wf(),
            old(self)@.running(),
        ensures
            final(self).wf(),
            (final(self)@, event@) == old(self)@.op_print(),
    {
        let len = self.stack.len();
        let mut from: usize = len;
        let mut found: bool = false;
        assert(self.stack@.take(len as int) =~= self.stack@);
        while from > 0 && !found
            invariant
                from <= len,
                len == self.stack@.len(),
                print_from(self.stack@) == print_from(self.stack@.take(from as int)),
                found ==> from > 0 && callable(self.stack@[from - 1]),
            decreases from + if found { 0int } else { 1int },
        {
            if is_function_or_closure(&self.stack[from - 1]) {
                found = true;
            } else {
                assert(self.stack@.take(from as int).drop_last() =~= self.stack@.take(from - 1));
                from -= 1;
            }
        }
        assert(print_from(self.stack@) == from);
        let ghost values = self.stack@.skip(from as int);
        let mut pieces: Vec<Printed> = Vec::new();
        let mut i: usize = from;
        while i < len
            invariant
                from <= i <= len,
                len == self.stack@.len(),
                self@ == old(self)@,
                self.wf(),
                self@.running(),
                print_from(self.stack@) == from,
                values == self.stack@.skip(from as int),
                pieces@.len() == i - from,
                forall|j: int| 0 <= j < i - from ==> self@.writable(#[trigger] values[j]),
                forall|j: int| 0 <= j < i - from ==> (#[trigger] pieces@[j])@ == self@.piece(values[j]),
            decreases len - i,
        {
            let value = self.stack[i];
            assert(values[i - from] == value);
            match self.format_value(&value) {
                Some(printed) => {
                    pieces.push(printed);
                },
                None => {
                    assert(!self@.all_writable(values));
                    return self.fail("not find this string in interner.");
                },
            }
            i += 1;
        }
        assert(self@.all_writable(values));
        let event = Event::Print(pieces);
        assert(event@ =~= Outcome::Print(self@.pieces(values))) by {
            assert(Seq::new(pieces@.len(), |i: int| pieces@[i]@) =~= self@.pieces(values));
        }
        self.stack.truncate(from);
        event
    }

    fn op_define_global(&mut self, k: u32, offset: u8) -> (event: Event)
        requires
            old(self).wf(),
            old(self)@.running(),
        ensures
            final(self).wf(),
            (final(self)@, event@) == old(self)@.op_define_global(k, offset),
    {
        match self.read_str(k) {
            Some(id) => {
                let len = self.stack.len();
                if (offset as usize) < len {
                    let value = self.stack[len - 1 - offset as usize];
                    let _ = self.globals.insert(id.0, value);
                    Event::Continue
                } else {
                    self.fail("stack underflow.")
                }
            },
            None => self.fail("not find this string in interner."),
        }
    }

    /// The message about an undefined global with the name `id`.
    fn undefined(&self, id: StrId) -> (message: String)
        requires
            self@.runtime.interner.has_id(id),
        ensures
            message@ == undefined_variable(self@.runtime.interner.text(id)),
    {
        let mut message = String::from_str("undefined variable ");
        message.append(self.runtime.interner().lookup(id));
        message
    }

    fn op_get_global(&mut self, k: u32) -> (event: Event)
        requires
            old(self).wf(),
            old(self)@.running(),
        ensures
            final(self).wf(),
            (final(self)@, event@) == old(self)@.op_get_global(k),
    {
        match self.read_str(k) {
            Some(id) => {
                let found: Option<Value> = match self.globals.get(&id.0) {
                    Some(value) => Some(*value),
                    None => None,
                };
                match found {
                    Some(value) => {
                        self.stack.push(value);
                        Event::Continue
                    },
                    None => {
                        let message = self.undefined(id);
                        self.runtime_error(message)
                    },
                }
            },
            None => self.fail("not find this string in interner."),
        }
    }

    fn op_set_global(&mut self, k: u32) -> (event: Event)
        requires
            old(self).wf(),
            old(self)@.running(),
        ensures
            final(self).wf(),
            (final(self)@, event@) == old(self)@.op_set_global(k),
    {
        match self.read_str(k) {
            Some(id) => {
                let len = self.stack.len();
                if len > 0 {
                    let value = self.stack[len - 1];
                    let _ = self.globals.insert(id.0, value);
                    self.drop_top(1);
                    Event::Continue
                } else {
                    let message = self.undefined(id);
                    self.runtime_error(message)
                }
            },
            None => self.fail("not find this string in interner."),
        }
    }

    /// The function that `callee` stands for, where it is one of the
    /// function table.
    fn callee_id(&self, callee: &Value) -> (id: Option<u32>)
        ensures
            id == match *callee {
                Value::Function(f) => if self@.runtime.has_closure(f) {
                    Some(f)
                } else {
                    None
                },
                Value::Closure(f) => if self@.runtime.has_closure(f) {
                    Some(f)
                } else {
                    None
                },
                _ => None,
            },
    {
        match callee {
            Value::Function(f) => {
                if self.runtime.has_closure(*f) {
                    Some(*f)
                } else {
                    None
                }
            },
            Value::Closure(f) => {
                if self.runtime.has_closure(*f) {
                    Some(*f)
                } else {
                    None
                }
            },
            _ => None,
        }
    }

    fn call_value(&mut self, arity: u32) -> (event: Event)
        requires
            old(self).wf(),
            old(self)@.running(),
        ensures
            final(self).wf(),
            (final(self)@, event@) == old(self)@.op_call(arity),
    {
        let len = self.stack.len();
        if arity as usize >= len {
            return self.fail("stack underflow.");
        }
        let callee = self.stack[len - 1 - arity as usize];
        match self.callee_id(&callee) {
            Some(id) => {
                let expected = self.runtime.get_closure(&id).function().arity();
                if expected == arity as usize {
                    self.call(id, arity as usize);
                    Event::Continue
                } else {
                    let mut message = String::from_str("expected ");
                    message.append(decimal_text(expected).as_str());
                    message.append(" arguments but got ");
                    message.append(decimal_text(arity as usize).as_str());
                    message.append(".");
                    self.runtime_error(message)
                }
            },
            None => self.fail("can only call functions and classes."),
        }
    }

    /// Opens the frame of a call of the closure `closure_idx` with `arity`
    /// arguments.
    fn call(&mut self, closure_idx: ClosureId, arity: usize)
        requires
            old(self).wf(),
            old(self)@.running(),
            old(self)@.runtime.has_closure(closure_idx),
            arity < old(self)@.stack.len(),
            arity <= u32::MAX,
        ensures
            final(self).wf(),
            final(self)@ == (Machine {
                runtime: RuntimeView {
                    frames: old(self)@.runtime.frames.push(old(self)@.called_frame(closure_idx, arity as u32)),
                    ..old(self)@.runtime
                },
                ..old(self)@
            }),
    {
        self.runtime.begin_frame(closure_idx, self.stack.len() - 1 - arity, self.local_stack.len());
    }

    fn op_return(&mut self) -> (event: Event)
        requires
            old(self).wf(),
            old(self)@.running(),
        ensures
            final(self).wf(),
            (final(self)@, event@) == old(self)@.op_return(),
    {
        let frame = *self.runtime.current_frame();
        let len = self.stack.len();
        let last = self.runtime.frames().len() == 1;
        if !last && len == 0 {
            return self.fail("stack underflow.");
        }
        let ghost before = self@;
        self.runtime.exit_frame();
        assert(self@.runtime.valid()) by {
            assert forall|i: int| 0 <= i < self@.runtime.frames.len() implies (#[trigger] self@.runtime.frames[i]).closure_id
                < self@.runtime.closures.len() by {
                assert(self@.runtime.frames[i] == before.runtime.frames[i]);
            }
        }
        let value = if len > 0 {
            Some(self.stack[len - 1])
        } else {
            None
        };
        self.drop_top(1);
        self.stack.truncate(frame.slot_begin());
        self.local_stack.truncate(frame.local_slot_begin());
        assert(self@.stack =~= cut(without_top(before.stack, 1), frame@.slot_begin as int));
        assert(self@.locals =~= cut(before.locals, frame@.local_slot_begin as int));
        if last {
            self.status = Some(InterpretStatus::Success);
            return Event::Done(InterpretStatus::Success);
        }
        match value {
            Some(value) => {
                self.stack.push(value);
            },
            None => {},
        }
        Event::Continue
    }

    /// Executes one instruction.
    pub fn step(&mut self) -> (event: Event)
        requires
            old(self).wf(),
        ensures
            final(self).wf(),
            (final(self)@, event@) == old(self)@.step(),
    {
        if let Some(status) = self.status {
            return Event::Done(status);
        }
        if let Some(request) = self.pending {
            return Event::Arithmetic(request);
        }
        if self.runtime.frames().len() == 0 {
            return Event::Done(InterpretStatus::Success);
        }
        let ip = self.ip();
        let chunk = self.runtime.current_chunk();
        let len = chunk.len();
        if ip >= len {
            return self.fail("instruction pointer out of range.");
        }
        let op = chunk.get_u8(ip);
        let width = opcode::operand_count(op);
        if width > len - ip - 1 {
            return self.fail("truncated instruction.");
        }
        let wide: u32 = if width >= 4 {
            chunk.get_u32(ip + 1)
        } else {
            0
        };
        let narrow: u8 = if width == 1 {
            chunk.get_u8(ip + 1)
        } else if width == 5 {
            chunk.get_u8(ip + 5)
        } else {
            0
        };
        let line = chunk.get_line(ip);
        self.set_ip(ip + 1 + width);
        match self.execute(op, wide, narrow, Ghost(ip + 1)) {
            Event::Error { line: _, message } => Event::Error { line, message },
            event => event,
        }
    }

    fn execute(&mut self, op: u8, wide: u32, narrow: u8, Ghost(at): Ghost<int>) -> (event: Event)
        requires
            old(self).wf(),
            old(self)@.running(),
            0 <= at,
            at + opcode::operand_width(op) <= old(self)@.chunk().code.len(),
            opcode::operand_width(op) >= 4 ==> wide == crate::chunk::le_value(old(self)@.chunk().code, at),
            opcode::operand_width(op) == 1 ==> narrow == old(self)@.chunk().code[at],
            opcode::operand_width(op) == 5 ==> narrow == old(self)@.chunk().code[at + 4],
        ensures
            final(self).wf(),
            (final(self)@, event@) == old(self)@.execute(op, at),
    {
        if op == opcode::RETURN {
            self.op_return()
        } else if op == opcode::CONSTANT {
            self.op_constant(wide)
        } else if op == opcode::NIL {
            self.op_push(Value::Nil)
        } else if op == opcode::TRUE {
            self.op_push(Value::Bool(true))
        } else if op == opcode::FALSE {
            self.op_push(Value::Bool(false))
        } else if op == opcode::POP {
            self.op_pop()
        } else if op == opcode::ADD {
            self.binary_op(ArithmeticOp::Add, narrow)
        } else if op == opcode::SUBTRACT {
            self.binary_op(ArithmeticOp::Subtract, narrow)
        } else if op == opcode::MULTIPLY {
            self.binary_op(ArithmeticOp::Multiply, narrow)
        } else if op == opcode::INVERT {
            self.op_invert()
        } else if op == opcode::EQUAL_EQUAL {
            self.op_equal()
        } else if op == opcode::GREATER {
            self.op_compare(true)
        } else if op == opcode::LESS {
            self.op_compare(false)
        } else if op == opcode::AND {
            self.op_logic(false)
        } else if op == opcode::OR {
            self.op_logic(true)
        } else if op == opcode::PRINT {
            self.op_print()
        } else if op == opcode::DEFINE_GLOBAL {
            self.op_define_global(wide, narrow)
        } else if op == opcode::GET_GLOBAL {
            self.op_get_global(wide)
        } else if op == opcode::SET_GLOBAL {
            self.op_set_global(wide)
        } else if op == opcode::DEFINE_LOCAL {
            self.op_define_local(narrow)
        } else if op == opcode::GET_LOCAL {
            self.op_get_local(wide)
        } else if op == opcode::SET_LOCAL {
            self.op_set_local(wide)
        } else if op == opcode::POP_LOCAL {
            self.op_pop_local()
        } else if op == opcode::JUMP_IF_FALSE {
            self.op_jump_if_false(wide)
        } else if op == opcode::JUMP {
            self.op_jump(wide)
        } else if op == opcode::LOOP {
            self.op_loop(wide)
        } else if op == opcode::RECORD_BREAK {
            self.op_record_break(wide)
        } else if op == opcode::BREAK {
            self.op_break()
        } else if op == opcode::DISCARD_BREAK {
            self.op_discard_break()
        } else if op == opcode::CALL {
            self.call_value(wide)
        } else {
            Event::Continue
        }
    }

    /// Executes instructions until one has something to tell the host, at
    /// most `fuel` of them; in `Debug` mode at most one.
    pub fn run(&mut self, mode: VMMode, fuel: u64) -> (event: Event)
        requires
            old(self).wf(),
        ensures
            final(self).wf(),
            (final(self)@, event@) == old(self)@.run(
                if mode == VMMode::Debug && fuel > 1 {
                    1nat
                } else {
                    fuel as nat
                },
            ),
    {
        let mut left: u64 = if mode == VMMode::Debug && fuel > 1 {
            1
        } else {
            fuel
        };
        let ghost total = left as nat;
        let mut event = Event::Continue;
        while left > 0 && matches!(event, Event::Continue)
            invariant
                self.wf(),
                event is Continue ==> old(self)@.run(total) == self@.run(left as nat),
                !(event is Continue) ==> old(self)@.run(total) == (self@, event@),
            decreases left + if event is Continue { 1int } else { 0int },
        {
            event = self.step();
            left -= 1;
        }
        event
    }

    /// Clears the value stack and releases every interned string.
    pub fn free(&mut self)
        requires
            old(self).wf(),
            old(self)@.pending is None,
        ensures
            final(self).wf(),
            final(self)@ == (Machine {
                stack: Seq::empty(),
                runtime: RuntimeView {
                    interner: old(self)@.runtime.interner.released(),
                    ..old(self)@.runtime
                },
                ..old(self)@
            }),
    {
        self.stack.clear();
        self.runtime.free();
    }

    /// The value of the global named `name`, where there is one.
    pub fn get_global(&self, name: &str) -> (value: Option<Value>)
        requires
            self.wf(),
        ensures
            value == if self@.runtime.interner.knows(name@) && self@.globals.contains_key(
                self@.runtime.interner.id_of(name@).0,
            ) {
                Some(self@.globals[self@.runtime.interner.id_of(name@).0])
            } else {
                None
            },
    {
        match self.runtime.interner().id_of(name) {
            Some(id) => match self.globals.get(&id.0) {
                Some(value) => Some(*value),
                None => None,
            },
            None => None,
        }
    }

    /// The values on the stack, the lowest first.
    pub fn stack(&self) -> (stack: &Vec<Value>)
        ensures
            stack@ == self@.stack,
    {
        &self.stack
    }

    /// The values of the locals, the lowest first.
    pub fn locals(&self) -> (locals: &Vec<Value>)
        ensures
            locals@ == self@.locals,
    {
        &self.local_stack
    }

    /// The runtime that the machine works on.
    pub fn runtime(&self) -> (runtime: &Runtime)
        ensures
            runtime@ == self@.runtime,
    {
        &self.runtime
    }

    /// Gives up the machine and hands back its runtime.
    pub fn into_runtime(self) -> (runtime: Runtime)
        ensures
            runtime@ == self@.runtime,
    {
        self.runtime
    }
}

} // verus!
