//! The state that lives for one run: the string table, the function table
//! and the stack of call frames.

use vstd::prelude::*;
use crate::chunk::{well_formed, Chunk};
use crate::compiler::{Diagnostic, Parser};
use crate::parsing::compiled;
use crate::convert::hanzi2num::{converted, hanzi2num};
use crate::keywords::sorted_keyword_table;
use crate::machine::Machine;
use crate::scanner::{lemma_lex_bounds, lemma_sorted_table_usable, lex, lex_all, Lexeme, Scanner};
use crate::token::{Token, TokenKind};
use crate::value::Value;
use crate::vm::VM;
use crate::interner::{Interned, Interner};
use crate::object::{Closure, ClosureId, ClosureView, FunId, Function};

verus! {

#[derive(Debug, Clone, Copy, PartialEq, Eq, Structural)]
pub enum InterpretStatus {
    CompilerError,
    RuntimeError,
    /// The program ran to its end.
    Success,
}

/// One call in progress: where it reads its code, which function it runs,
/// and where its part of the value stack and of the local stack begins.
#[derive(Debug, Clone, Copy, PartialEq, Eq, Structural)]
pub struct CallFrame {
    ip: usize,
    closure_id: FunId,
    slot_begin: usize,
    local_slot_begin: usize,
}

/// What a call frame holds.
pub struct Frame {
    pub ip: usize,
    pub closure_id: FunId,
    pub slot_begin: usize,
    pub local_slot_begin: usize,
}

impl View for CallFrame {
    type V = Frame;

    closed spec fn view(&self) -> Frame {
        Frame {
            ip: self.ip,
            closure_id: self.closure_id,
            slot_begin: self.slot_begin,
            local_slot_begin: self.local_slot_begin,
        }
    }
}

impl CallFrame {
    pub fn new(ip: usize, closure_id: FunId, slot_begin: usize, local_slot_begin: usize) -> (frame: CallFrame)
        ensures
            frame@ == (Frame { ip, closure_id, slot_begin, local_slot_begin }),
    {
        Self { ip, closure_id, slot_begin, local_slot_begin }
    }

    pub fn set_ip(&mut self, ip: usize)
        ensures
            final(self)@ == (Frame { ip, ..old(self)@ }),
    {
        self.ip = ip;
    }

    pub fn add_ip(&mut self, offset: usize)
        requires
            old(self)@.ip + offset <= usize::MAX,
        ensures
            final(self)@ == (Frame { ip: (old(self)@.ip + offset) as usize, ..old(self)@ }),
    {
        self.ip = self.ip + offset;
    }

    pub fn sub_ip(&mut self, offset: usize)
        requires
            old(self)@.ip >= offset,
        ensures
            final(self)@ == (Frame { ip: (old(self)@.ip - offset) as usize, ..old(self)@ }),
    {
        self.ip = self.ip - offset;
    }

    pub fn ip(&self) -> (ip: usize)
        ensures
            ip == self@.ip,
    {
        self.ip
    }

    pub fn closure_id(&self) -> (id: FunId)
        ensures
            id == self@.closure_id,
    {
        self.closure_id
    }

    pub fn slot_begin(&self) -> (slot: usize)
        ensures
            slot == self@.slot_begin,
    {
        self.slot_begin
    }

    pub fn local_slot_begin(&self) -> (slot: usize)
        ensures
            slot == self@.local_slot_begin,
    {
        self.local_slot_begin
    }
}

/// What a runtime holds. The closure with identity `i` is `closures[i]`;
/// the last frame is the one that runs.
pub struct RuntimeView {
    pub interner: Interned,
    pub closures: Seq<ClosureView>,
    pub frames: Seq<Frame>,
}

impl RuntimeView {
    /// The runtime before anything was interned or compiled.
    pub open spec fn fresh() -> RuntimeView {
        RuntimeView { interner: Interned::fresh(), closures: Seq::empty(), frames: Seq::empty() }
    }

    /// The string table is valid, every function has an identity of 32
    /// bits, and every frame runs a function of the table.
    pub open spec fn valid(self) -> bool {
        &&& self.interner.valid()
        &&& self.closures.len() <= 0x1_0000_0000
        &&& forall|i: int| 0 <= i < self.frames.len() ==> (#[trigger] self.frames[i]).closure_id < self.closures.len()
    }

    pub open spec fn has_closure(self, id: ClosureId) -> bool {
        id < self.closures.len()
    }
}

pub struct Runtime {
    interner: Interner,
    closures: Vec<Closure>,
    frames: Vec<CallFrame>,
}

impl View for Runtime {
    type V = RuntimeView;

    closed spec fn view(&self) -> RuntimeView {
        RuntimeView {
            interner: self.interner@,
            closures: Seq::new(self.closures@.len(), |i: int| self.closures@[i]@),
            frames: Seq::new(self.frames@.len(), |i: int| self.frames@[i]@),
        }
    }
}

impl Runtime {
    pub fn new() -> (runtime: Runtime)
        ensures
            runtime@ == RuntimeView::fresh(),
            runtime@.valid(),
    {
        let runtime = Self { interner: Interner::new(), closures: Vec::new(), frames: Vec::new() };
        assert(runtime@.closures =~= Seq::empty());
        assert(runtime@.frames =~= Seq::empty());
        runtime
    }

    pub fn frames(&self) -> (frames: &Vec<CallFrame>)
        ensures
            frames@.len() == self@.frames.len(),
            forall|i: int| 0 <= i < frames@.len() ==> (#[trigger] frames@[i])@ == self@.frames[i],
    {
        &self.frames
    }

    /// The frame that runs.
    pub fn current_frame(&self) -> (frame: &CallFrame)
        requires
            self@.frames.len() > 0,
        ensures
            frame@ == self@.frames.last(),
    {
        &self.frames[self.frames.len() - 1]
    }

    pub fn current_frame_mut(&mut self) -> (frame: &mut CallFrame)
        requires
            old(self)@.frames.len() > 0,
        ensures
            frame@ == old(self)@.frames.last(),
            final(self)@.frames =~= old(self)@.frames.update(old(self)@.frames.len() - 1, final(frame)@),
            final(self)@.closures =~= old(self)@.closures,
            final(self)@.interner == old(self)@.interner,
    {
        let n: usize = self.frames.len();
        &mut self.frames[n - 1]
    }

    /// The chunk of the function that runs.
    pub fn current_chunk(&self) -> (chunk: &Chunk)
        requires
            self@.frames.len() > 0,
            self@.has_closure(self@.frames.last().closure_id),
        ensures
            chunk@ == self@.closures[self@.frames.last().closure_id as int].function.chunk,
    {
        let id = self.current_frame().closure_id();
        self.get_closure(&id).function().chunk()
    }

    /// Opens a frame that runs the closure `closure_idx` from the start of
    /// its code.
    pub fn begin_frame(&mut self, closure_idx: ClosureId, slot_begin: usize, local_slot_begin: usize) -> (id: u32)
        requires
            old(self)@.has_closure(closure_idx),
        ensures
            id == closure_idx,
            final(self)@ == (RuntimeView {
                frames: old(self)@.frames.push(
                    Frame { ip: 0, closure_id: closure_idx, slot_begin, local_slot_begin },
                ),
                ..old(self)@
            }),
    {
        let ghost before = self@;
        let frame = CallFrame::new(0, closure_idx, slot_begin, local_slot_begin);
        self.frames.push(frame);
        proof {
            assert(self@.frames =~= before.frames.push(frame@));
            assert(self@.closures =~= before.closures);
        }
        closure_idx
    }

    /// Closes the frame that runs, if there is one.
    pub fn exit_frame(&mut self)
        ensures
            final(self)@ == (RuntimeView {
                frames: if old(self)@.frames.len() > 0 {
                    old(self)@.frames.drop_last()
                } else {
                    old(self)@.frames
                },
                ..old(self)@
            }),
    {
        let ghost before = self@;
        let _ = self.frames.pop();
        proof {
            if before.frames.len() > 0 {
                assert(self@.frames =~= before.frames.drop_last());
            } else {
                assert(self@.frames =~= before.frames);
            }
            assert(self@.closures =~= before.closures);
        }
    }

    /// Whether `id` is the identity of a function of the table.
    pub fn has_closure(&self, id: u32) -> (known: bool)
        ensures
            known == self@.has_closure(id),
    {
        (id as usize) < self.closures.len()
    }

    /// Whether one more function can get an identity.
    pub fn has_room(&self) -> (room: bool)
        ensures
            room == (self@.closures.len() < 0x1_0000_0000),
    {
        self.closures.len() as u64 <= 0xFFFF_FFFF
    }

    /// Puts `fun` into the function table and returns its identity.
    pub fn add_closure(&mut self, fun: Function) -> (id: u32)
        requires
            old(self)@.closures.len() < 0x1_0000_0000,
        ensures
            id == old(self)@.closures.len(),
            final(self)@ == (RuntimeView {
                closures: old(self)@.closures.push(
                    ClosureView {
                        function: fun@,
                        upvalues: Seq::new(fun@.upvalues_count as nat, |i: int| crate::value::Value::Nil),
                    },
                ),
                ..old(self)@
            }),
    {
        let ghost before = self@;
        let closure = Closure::new(fun);
        let id = self.closures.len() as u32;
        self.closures.push(closure);
        proof {
            assert(self@.closures =~= before.closures.push(closure@));
            assert(self@.frames =~= before.frames);
        }
        id
    }

    pub fn get_closure(&self, id: &u32) -> (closure: &Closure)
        requires
            self@.has_closure(*id),
        ensures
            closure@ == self@.closures[*id as int],
    {
        &self.closures[*id as usize]
    }

    pub fn interner(&self) -> (interner: &Interner)
        ensures
            interner@ == self@.interner,
    {
        &self.interner
    }

    pub fn interner_mut(&mut self) -> (interner: &mut Interner)
        ensures
            interner@ == old(self)@.interner,
            final(self)@ == (RuntimeView { interner: final(interner)@, ..old(self)@ }),
    {
        &mut self.interner
    }

    /// Releases every interned string.
    pub fn free(&mut self)
        requires
            old(self)@.interner.valid(),
        ensures
            final(self)@ == (RuntimeView { interner: old(self)@.interner.released(), ..old(self)@ }),
    {
        self.interner.free()
    }
}

/// For each number token among `lexemes`, in order, the decimal notation
/// of the number that its text in `chars` stands for.
pub open spec fn number_texts(chars: Seq<char>, lexemes: Seq<Lexeme>) -> Seq<Option<Seq<char>>>
    decreases lexemes.len(),
{
    if lexemes.len() == 0 {
        Seq::empty()
    } else if lexemes.last().kind == TokenKind::Number {
        number_texts(chars, lexemes.drop_last()).push(
            converted(chars.subrange(lexemes.last().start, lexemes.last().end)),
        )
    } else {
        number_texts(chars, lexemes.drop_last())
    }
}

/// The texts of `literals`.
pub open spec fn texts_of(literals: Seq<Option<String>>) -> Seq<Option<Seq<char>>> {
    Seq::new(
        literals.len(),
        |i: int|
            match literals[i] {
                Some(text) => Some(text@),
                None => None,
            },
    )
}

/// For each number token of `buf`, in order, the number in decimal
/// notation; none for a token that is no number. The host reads the
/// doubles from these and hands them to `interpret`.
pub fn number_literals(buf: &str) -> (literals: Vec<Option<String>>)
    requires
        buf@.len() < usize::MAX,
    ensures
        texts_of(literals@) == number_texts(buf@, lex_all(sorted_keyword_table(), buf@, 0, 1)),
{
    let mut scanner = Scanner::new(buf);
    let ghost table = sorted_keyword_table();
    let ghost chars = buf@;
    let ghost all = lex_all(table, chars, 0, 1);
    let ghost mut scanned: int = 0;
    let mut literals: Vec<Option<String>> = Vec::new();
    let mut done: bool = false;
    proof {
        lemma_sorted_table_usable();
        assert(all.take(0) =~= Seq::<Lexeme>::empty());
        assert(texts_of(literals@) =~= number_texts(chars, all.take(0)));
    }
    while !done
        invariant
            scanner.wf(),
            scanner@.chars == chars,
            chars == buf@,
            table == sorted_keyword_table(),
            crate::scanner::usable(table),
            0 <= scanned <= all.len(),
            !done ==> all == all.take(scanned) + lex_all(table, chars, scanner@.current, scanner@.line),
            done ==> scanned == all.len(),
            texts_of(literals@) == number_texts(chars, all.take(scanned)),
        decreases chars.len() - scanner@.current + if done { 0int } else { 1int },
    {
        let ghost from = scanner@.current;
        let ghost line = scanner@.line;
        let ghost rest = lex_all(table, chars, from, line);
        let ghost lexeme = lex(table, chars, from, line);
        proof {
            scanner.lemma_wf();
            lemma_lex_bounds(table, chars, from, line);
        }
        let token = scanner.scan_token();
        proof {
            assert(rest[0] == lexeme);
            assert(all[scanned] == rest[0]);
            assert(all.take(scanned + 1).drop_last() =~= all.take(scanned));
            assert(all.take(scanned + 1).last() == lexeme);
            if lexeme.kind != TokenKind::Eof {
                let tail = lex_all(table, chars, lexeme.next, lexeme.line);
                assert(rest == seq![lexeme] + tail);
                assert(all =~= all.take(scanned + 1) + tail);
            } else {
                assert(rest =~= seq![lexeme]);
                assert(all.len() == scanned + 1);
            }
            scanner.lemma_wf();
        }
        let ghost before = literals@;
        match token.get_value() {
            Token::Number => {
                let word = buf.substring_char(scanner.span_start(), scanner.span_end());
                let literal = hanzi2num(word);
                literals.push(literal);
                proof {
                    assert(texts_of(literals@) =~= texts_of(before).push(
                        converted(chars.subrange(lexeme.start, lexeme.end)),
                    ));
                }
            },
            Token::Eof => {
                done = true;
            },
            _ => {},
        }
        proof {
            scanned = scanned + 1;
        }
    }
    proof {
        assert(all.take(scanned) =~= all);
    }
    literals
}

/// Compiles `buf` and sets up a machine that is ready to run the script;
/// hands out the diagnostics where the source has errors.
///
/// `numbers` holds, for each number token of `buf` in order, the double
/// that the token stands for, if it stands for one. The host runs the
/// machine, prints what it is told to print, and computes the arithmetic
/// on numbers that the machine asks for.
pub fn interpret(buf: &str, numbers: &Vec<Option<u64>>) -> (outcome: Result<VM, Vec<Diagnostic>>)
    requires
        buf@.len() < usize::MAX,
    ensures
        outcome is Ok <==> !compiled(buf@, numbers@, RuntimeView::fresh()).has_error,
        match outcome {
            Ok(vm) => {
                let done = compiled(buf@, numbers@, RuntimeView::fresh());
                let script = (done.runtime.closures.len() - 1) as u32;
                &&& vm.wf()
                &&& vm@.running()
                &&& done.runtime.closures.len() > 0
                &&& vm@ == (Machine {
                    stack: seq![Value::Closure(script)],
                    runtime: RuntimeView {
                        frames: seq![Frame { ip: 0, closure_id: script, slot_begin: 0, local_slot_begin: 0 }],
                        ..done.runtime
                    },
                    ..Machine::initial(done.runtime)
                })
                &&& forall|i: int|
                    0 <= i < vm@.runtime.closures.len() ==> well_formed(
                        (#[trigger] vm@.runtime.closures[i]).function.chunk.code,
                    )
            },
            Err(diagnostics) => {
                &&& diagnostics@.len() > 0
                &&& Seq::new(diagnostics@.len(), |i: int| diagnostics@[i]@) == compiled(
                    buf@,
                    numbers@,
                    RuntimeView::fresh(),
                ).diagnostics
            },
        },
{
    let runtime = Runtime::new();
    let mut compiler = Parser::new(buf, runtime, numbers);
    match compiler.compile() {
        Some(closure_id) => {
            let runtime = compiler.into_runtime();
            let mut vm = VM::new(runtime);
            vm.setup_first_frame(closure_id);
            proof {
                assert(vm@.stack =~= seq![Value::Closure(closure_id)]);
                assert(vm@.runtime.frames =~= seq![
                    Frame { ip: 0, closure_id, slot_begin: 0, local_slot_begin: 0 },
                ]);
            }
            Ok(vm)
        },
        None => {
            let diagnostics = compiler.into_diagnostics();
            assert(Seq::new(diagnostics@.len(), |i: int| diagnostics@[i]@) =~= compiled(
                buf@,
                numbers@,
                RuntimeView::fresh(),
            ).diagnostics);
            Err(diagnostics)
        },
    }
}

} // verus!
