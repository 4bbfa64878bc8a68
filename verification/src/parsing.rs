//! The state of the parser as a mathematical object, and what the
//! operations of the parser do to it.

use vstd::prelude::*;
use crate::chunk::{jump_target, le_bytes, well_formed, ChunkView};
use crate::compiler::{Depth, FunctionType};
use crate::decimal::decimal;
use crate::interpreter::RuntimeView;
use crate::object::ClosureView;
use crate::keywords::sorted_keyword_table;
use crate::object::FunctionView;
use crate::opcode;
use crate::scanner::{lemma_lex_bounds, lemma_sorted_table_usable, lex};
use crate::token::{Token, TokenKind};
use crate::value::{number_count, Value, NUMBER_ONE, NUMBER_ZERO};

verus! {

/// What a local holds.
pub struct LocalView {
    pub name: Seq<char>,
    pub depth: Depth,
}

/// The compilation state of one function: its locals, with the slot of a
/// local being its index, the scope depth, and the function itself.
pub struct CompilerFrame {
    pub locals: Seq<LocalView>,
    pub scope_depth: Depth,
    pub function: FunctionView,
    pub fun_kind: FunctionType,
}

impl CompilerFrame {
    /// The state in which the compilation of a function of kind `kind`
    /// starts, before the function has its name.
    pub open spec fn fresh(kind: FunctionType) -> CompilerFrame {
        CompilerFrame {
            locals: Seq::empty(),
            scope_depth: 0,
            function: FunctionView { arity: 0, chunk: ChunkView::empty(), name: Seq::empty(), upvalues_count: 0 },
            fun_kind: kind,
        }
    }

    /// Scopes are not closed more often than opened, every local lies in an
    /// open scope, a local declared later lies no less deep, every slot fits
    /// in 32 bits, and the chunk has one line for every code byte.
    pub open spec fn valid(self) -> bool {
        &&& 0 <= self.scope_depth
        &&& self.locals.len() <= u32::MAX
        &&& forall|i: int| 0 <= i < self.locals.len() ==> 0 <= (#[trigger] self.locals[i]).depth <= self.scope_depth
        &&& forall|i: int, j: int|
            0 <= i <= j < self.locals.len() ==> (#[trigger] self.locals[i]).depth <= (#[trigger] self.locals[j]).depth
        &&& self.function.chunk.lines.len() == self.function.chunk.code.len()
    }

    /// Slot of the local named `name` that was declared last.
    pub open spec fn slot_of(self, name: Seq<char>) -> Option<u32> {
        resolve(self.locals, name)
    }
}

/// Index of the last local named `name`.
pub open spec fn resolve(locals: Seq<LocalView>, name: Seq<char>) -> Option<u32>
    decreases locals.len(),
{
    if locals.len() == 0 {
        None
    } else if locals.last().name == name {
        Some((locals.len() - 1) as u32)
    } else {
        resolve(locals.drop_last(), name)
    }
}

/// The locals that stay when a scope is closed and `depth` is the depth
/// of the scope around it: from the end, every local declared deeper goes.
pub open spec fn in_scope(locals: Seq<LocalView>, depth: Depth) -> Seq<LocalView>
    decreases locals.len(),
{
    if locals.len() > 0 && locals.last().depth > depth {
        in_scope(locals.drop_last(), depth)
    } else {
        locals
    }
}

/// What a diagnostic holds: the line of the token at which the error was
/// found, whether that token is the end of the input, and the message.
pub struct DiagnosticView {
    pub line: usize,
    pub at_end: bool,
    pub message: Seq<char>,
}

impl DiagnosticView {
    /// The line that is written for the diagnostic.
    pub open spec fn text(self) -> Seq<char> {
        "[line "@ + decimal(self.line as nat) + "] compiler error"@ + (if self.at_end {
            " at end"@
        } else {
            Seq::empty()
        }) + ": "@ + self.message
    }
}

/// A token as the parser holds it: its kind, the message of an error, its
/// line, the characters `[start, end)` of its text, and, for a number, the
/// double that the host read from it.
pub struct TokenView {
    pub kind: TokenKind,
    pub message: Seq<char>,
    pub line: usize,
    pub start: int,
    pub end: int,
    pub number: Option<u64>,
}

/// What a parser holds.
pub struct ParserView {
    /// The characters of the source.
    pub chars: Seq<char>,
    /// Index of the next character that the scanner reads, and its line.
    pub cursor: int,
    pub scan_line: int,
    /// The doubles read from the number tokens of the source, in order, and
    /// how many number tokens were scanned.
    pub numbers: Seq<Option<u64>>,
    pub number_cursor: int,
    pub current: TokenView,
    pub previous: TokenView,
    pub has_error: bool,
    pub panic_mode: bool,
    pub diagnostics: Seq<DiagnosticView>,
    pub runtime: RuntimeView,
    /// The state of the function that is being compiled.
    pub frame: CompilerFrame,
}

impl TokenView {
    /// The token that a parser holds before it has read one.
    pub open spec fn blank() -> TokenView {
        TokenView { kind: TokenKind::Error, message: Seq::empty(), line: 1, start: 0, end: 0, number: None }
    }
}

impl ParserView {
    /// The parser before it has read anything of the source `chars`: it
    /// compiles the script.
    pub open spec fn initial(chars: Seq<char>, numbers: Seq<Option<u64>>, runtime: RuntimeView) -> ParserView {
        ParserView {
            chars,
            cursor: 0,
            scan_line: 1,
            numbers,
            number_cursor: 0,
            current: TokenView::blank(),
            previous: TokenView::blank(),
            has_error: false,
            panic_mode: false,
            diagnostics: Seq::empty(),
            runtime,
            frame: CompilerFrame::fresh(FunctionType::Script),
        }
    }

    /// The chunk that code is emitted into.
    pub open spec fn chunk(self) -> ChunkView {
        self.frame.function.chunk
    }

    pub open spec fn code(self) -> Seq<u8> {
        self.frame.function.chunk.code
    }

    pub open spec fn with_chunk(self, chunk: ChunkView) -> ParserView {
        ParserView {
            frame: CompilerFrame { function: FunctionView { chunk, ..self.frame.function }, ..self.frame },
            ..self
        }
    }

    /// What is left to read: the characters behind the scanner, and the
    /// current token unless it is the end of the input.
    pub open spec fn remaining(self) -> int {
        self.chars.len() - self.cursor + if self.current.kind == TokenKind::Eof {
            0int
        } else {
            1int
        }
    }

    /// The text of the previous token.
    pub open spec fn previous_text(self) -> Seq<char> {
        self.chars.subrange(self.previous.start, self.previous.end)
    }

    /// An error at `token`: it is reported unless an earlier error still
    /// waits for the parser to find the next statement.
    pub open spec fn failed_at(self, token: TokenView, message: Seq<char>) -> ParserView {
        if self.panic_mode {
            ParserView { has_error: true, ..self }
        } else {
            ParserView {
                has_error: true,
                panic_mode: true,
                diagnostics: self.diagnostics.push(
                    DiagnosticView { line: token.line, at_end: token.kind == TokenKind::Eof, message },
                ),
                ..self
            }
        }
    }

    /// The token that the scanner finds next.
    pub open spec fn next_token(self) -> TokenView {
        let lexeme = lex(sorted_keyword_table(), self.chars, self.cursor, self.scan_line);
        TokenView {
            kind: lexeme.kind,
            message: lexeme.message,
            line: lexeme.line as usize,
            start: lexeme.start,
            end: lexeme.end,
            number: if lexeme.kind == TokenKind::Number && 0 <= self.number_cursor < self.numbers.len() {
                self.numbers[self.number_cursor]
            } else {
                None
            },
        }
    }

    /// The parser after it moved on by one token: the current token is the
    /// previous one, the next token is the current one, and an error token
    /// is reported.
    #[verifier::opaque]
    pub open spec fn advanced(self) -> ParserView {
        let lexeme = lex(sorted_keyword_table(), self.chars, self.cursor, self.scan_line);
        let token = self.next_token();
        let moved = ParserView {
            cursor: lexeme.next,
            scan_line: lexeme.line,
            number_cursor: if lexeme.kind == TokenKind::Number {
                self.number_cursor + 1
            } else {
                self.number_cursor
            },
            previous: self.current,
            current: token,
            ..self
        };
        if token.kind == TokenKind::Error {
            moved.failed_at(token, token.message)
        } else {
            moved
        }
    }

    /// The parser after `byte` was emitted: it is written for the line of
    /// the previous token.
    pub open spec fn emitted(self, byte: u8) -> ParserView {
        self.with_chunk(self.chunk().written(byte, self.previous.line))
    }

    /// The parser after all of `bytes` were emitted.
    pub open spec fn emitted_all(self, bytes: Seq<u8>) -> ParserView {
        self.with_chunk(self.chunk().extended(bytes, self.previous.line))
    }

    /// The parser after the current token was consumed if it is of kind
    /// `kind`; an error with `message` at the current token where it is not.
    pub open spec fn consumed(self, kind: TokenKind, message: Seq<char>) -> ParserView {
        if self.current.kind == kind {
            self.advanced()
        } else {
            self.failed_at(self.current, message)
        }
    }

    /// The parser after `value` was put into the constant pool, and the
    /// slot of the constant. A slot that does not fit in 32 bits is an
    /// error.
    pub open spec fn made_constant(self, value: Value) -> (ParserView, Option<u32>) {
        let slot = self.chunk().constants.len();
        let added = self.with_chunk(ChunkView { constants: self.chunk().constants.push(value), ..self.chunk() });
        if slot <= u32::MAX {
            (added, Some(slot as u32))
        } else {
            (added.failed_at(added.previous, "Too many constants in one chunk."@), None)
        }
    }

    /// The parser after CONSTANT was emitted for `value`.
    pub open spec fn emitted_constant(self, value: Value) -> ParserView {
        let (made, slot) = self.emitted(opcode::CONSTANT).made_constant(value);
        match slot {
            Some(slot) => made.emitted_all(le_bytes(slot)),
            None => made,
        }
    }

    /// The parser after the text of the previous token was interned, and
    /// the string value. Where the string table is full this is an error
    /// and the value is nil.
    pub open spec fn interned_previous(self) -> (ParserView, Value) {
        let text = self.previous_text();
        if self.runtime.interner.has_room() || self.runtime.interner.knows(text) {
            (
                ParserView {
                    runtime: RuntimeView { interner: self.runtime.interner.with(text), ..self.runtime },
                    ..self
                },
                Value::String(self.runtime.interner.id_of(text)),
            )
        } else {
            (self.failed_at(self.previous, "Too many strings."@), Value::Nil)
        }
    }

    /// The parser after the text of the previous token was made a constant
    /// of the chunk, and the slot of the constant.
    pub open spec fn named_constant(self) -> (ParserView, Option<u32>) {
        let (interned, value) = self.interned_previous();
        interned.made_constant(value)
    }

    /// The parser after a read of the variable that the previous token
    /// names was emitted: of a local where there is one of that name, else
    /// of a global.
    #[verifier::opaque]
    pub open spec fn emitted_variable(self) -> ParserView {
        match self.frame.slot_of(self.previous_text()) {
            Some(slot) => self.emitted(opcode::GET_LOCAL).emitted_all(le_bytes(slot)),
            None => {
                let (named, constant) = self.named_constant();
                match constant {
                    Some(constant) => named.emitted(opcode::GET_GLOBAL).emitted_all(le_bytes(constant)),
                    None => named,
                }
            },
        }
    }

    /// The parser after the number that the previous token stands for was
    /// emitted as a constant.
    pub open spec fn emitted_number(self) -> ParserView {
        match self.previous.number {
            Some(bits) => self.emitted_constant(Value::Number(bits)),
            None => self.failed_at(self.previous, "not a valid number"@),
        }
    }

    /// The parser after one expression was compiled: a number, a boolean,
    /// a string, a variable, or the word for the value before, which emits
    /// nothing.
    #[verifier::opaque]
    pub open spec fn expressed(self) -> ParserView {
        let moved = self.advanced();
        if moved.previous.kind == TokenKind::Number {
            moved.emitted_number()
        } else if moved.previous.kind == TokenKind::True {
            moved.emitted(opcode::TRUE)
        } else if moved.previous.kind == TokenKind::False {
            moved.emitted(opcode::FALSE)
        } else if moved.previous.kind == TokenKind::String {
            let (interned, value) = moved.interned_previous();
            interned.emitted_constant(value)
        } else if moved.previous.kind == TokenKind::Identifier {
            moved.emitted_variable()
        } else if moved.previous.kind == TokenKind::Prev {
            moved
        } else {
            moved.failed_at(moved.previous, "Expect expression"@)
        }
    }

    /// The parser after a jump with opcode `op` and an operand still to be
    /// patched was emitted.
    pub open spec fn emitted_jump(self, op: u8) -> ParserView {
        self.emitted(op).emitted_all(le_bytes(0))
    }

    /// The parser after the operand at `index` was patched to lead to the
    /// end of the code. A jump too long for its operand is an error.
    pub open spec fn patched_jump(self, index: int) -> ParserView {
        let jump = self.code().len() - index - 4;
        if jump <= u32::MAX {
            self.with_chunk(self.chunk().patched(index, jump as u32))
        } else {
            let failed = self.failed_at(self.previous, "Too many jumps in one chunk."@);
            failed.with_chunk(failed.chunk().patched(index, 0))
        }
    }

    /// The parser after a LOOP back to `loop_start` was emitted.
    pub open spec fn emitted_loop(self, loop_start: int) -> ParserView {
        let offset = self.code().len() - loop_start + 4;
        if offset <= u32::MAX {
            self.emitted(opcode::LOOP).emitted_all(le_bytes(offset as u32))
        } else {
            self.failed_at(self.previous, "Too many jumps in one chunk."@).emitted(opcode::LOOP).emitted_all(
                le_bytes(0),
            )
        }
    }

    /// The parser after a scope was closed: the locals of the scope are
    /// gone, and one POP_LOCAL was emitted for each.
    pub open spec fn scope_ended(self) -> ParserView {
        let depth = (self.frame.scope_depth - 1) as i8;
        let kept = in_scope(self.frame.locals, depth);
        let closed = ParserView {
            frame: CompilerFrame { scope_depth: depth, locals: kept, ..self.frame },
            ..self
        };
        closed.emitted_all(Seq::new((self.frame.locals.len() - kept.len()) as nat, |i: int| opcode::POP_LOCAL))
    }

    /// The parser after a comparison behind an expression was compiled:
    /// the other operand, the comparing instruction, and INVERT where the
    /// comparison is negated.
    #[verifier::opaque]
    pub open spec fn compared(self) -> ParserView {
        let kind = self.current.kind;
        if is_comparison(kind) {
            let operands = self.advanced().expressed().emitted(comparison_opcode(kind));
            if is_negated(kind) {
                operands.emitted(opcode::INVERT)
            } else {
                operands
            }
        } else {
            self.failed_at(self.current, "unknown if binary operator."@)
        }
    }

    /// The parser after an expression and the comparison behind it, if
    /// there is one, were compiled.
    #[verifier::opaque]
    pub open spec fn expression_compiled(self) -> ParserView {
        let value = self.expressed();
        if is_comparison(value.current.kind) {
            value.compared()
        } else {
            value
        }
    }

    /// The parser after an arithmetic statement led by a token of kind
    /// `kind` was compiled: the two operands, the arithmetic instruction and
    /// the byte of the preposition that stood between the operands.
    #[verifier::opaque]
    pub open spec fn arithmetic_compiled(self, kind: TokenKind) -> ParserView {
        let first = self.advanced().expressed();
        let left = first.current.kind == TokenKind::PrepositionLeft;
        let right = first.current.kind == TokenKind::PrepositionRight;
        let second = (if left || right {
            first.advanced()
        } else {
            first
        }).expressed();
        if !left && !right {
            second.failed_at(second.previous, "invalid preposition, you should use '於' or '以'."@)
        } else {
            let operation = if kind == TokenKind::Plus {
                second.emitted(opcode::ADD)
            } else if kind == TokenKind::Minus {
                second.emitted(opcode::SUBTRACT)
            } else if kind == TokenKind::Star {
                second.emitted(opcode::MULTIPLY)
            } else {
                second
            };
            operation.emitted(
                if left {
                    opcode::PREPOSITION_LEFT
                } else {
                    opcode::PREPOSITION_RIGHT
                },
            )
        }
    }

    /// The parser after the second operand of a boolean connective and the
    /// connective were compiled.
    #[verifier::opaque]
    pub open spec fn connective_compiled(self) -> ParserView {
        let operand = self.expressed();
        (if operand.current.kind == TokenKind::And {
            operand.emitted(opcode::AND)
        } else if operand.current.kind == TokenKind::Or {
            operand.emitted(opcode::OR)
        } else {
            operand.failed_at(operand.current, "expect '中有陽乎' or '中無陰乎'."@)
        }).advanced()
    }

    /// The parser after a return statement was compiled. At the top level
    /// it is an error.
    #[verifier::opaque]
    pub open spec fn return_compiled(self) -> ParserView {
        if self.frame.fun_kind == FunctionType::Script {
            self.failed_at(self.current, "cannot return from top-level code."@)
        } else {
            self.advanced().expressed().emitted(opcode::RETURN)
        }
    }

    /// The parser after a local named `name` was declared in the open
    /// scope. A function can have only so many locals as fit in 32 bits.
    pub open spec fn with_local(self, name: Seq<char>) -> ParserView {
        if self.frame.locals.len() < u32::MAX {
            ParserView {
                frame: CompilerFrame {
                    locals: self.frame.locals.push(LocalView { name, depth: self.frame.scope_depth }),
                    ..self.frame
                },
                ..self
            }
        } else {
            self.failed_at(self.previous, "Too many local variables in function."@)
        }
    }

    /// The parser after the name of a variable was read and the variable
    /// declared, and the constant that holds the name of a global. Inside a
    /// scope the variable is a local and there is no constant.
    #[verifier::opaque]
    pub open spec fn variable_parsed(self, message: Seq<char>) -> (ParserView, Option<u32>) {
        let named = self.consumed(TokenKind::Identifier, message);
        if named.frame.scope_depth == 0 {
            named.named_constant()
        } else {
            (named.with_local(named.previous_text()), None)
        }
    }

    /// The parser after `名之曰 n` was compiled: the definition of `n` as
    /// the value on top of the stack, then POP.
    #[verifier::opaque]
    pub open spec fn name_compiled(self) -> ParserView {
        let (parsed, global) = self.advanced().variable_parsed("Expect variable name."@);
        (match global {
            Some(global) => parsed.emitted(opcode::DEFINE_GLOBAL).emitted_all(le_bytes(global)),
            None => parsed.emitted(opcode::DEFINE_LOCAL),
        }).emitted(0).emitted(opcode::POP)
    }

    /// The parser after `昔之 X 者 今 e 是矣` was compiled: the expression,
    /// then SET_LOCAL where X is a local, else SET_GLOBAL.
    #[verifier::opaque]
    pub open spec fn assignment_compiled(self) -> ParserView {
        let named = self.advanced().advanced();
        let slot = named.frame.slot_of(named.previous_text());
        let (resolved, constant) = if slot is Some {
            (named, None)
        } else {
            named.named_constant()
        };
        let value = resolved.consumed(TokenKind::Conjunction, "expect '者' in assign statement"@).consumed(
            TokenKind::AssignTo,
            "expect '今' in assign statement."@,
        ).expressed().consumed(TokenKind::Sure, "expect '是矣' in assign statement."@);
        if slot is Some {
            value.emitted(opcode::SET_LOCAL).emitted_all(le_bytes(slot->0))
        } else if constant is Some {
            value.emitted(opcode::SET_GLOBAL).emitted_all(le_bytes(constant->0))
        } else {
            value
        }
    }

    /// The parser after `count` values of a declaration were compiled:
    /// for each, `曰` and an expression.
    #[verifier::opaque]
    pub open spec fn values_compiled(self, count: nat) -> ParserView
        decreases count,
    {
        if count == 0 {
            self
        } else {
            self.values_compiled((count - 1) as nat).consumed(
                TokenKind::Is,
                "expect '曰' in declaration."@,
            ).expressed()
        }
    }

    /// The parser after the definition of one name of a declaration was
    /// emitted: the value `offset` places below the top of the stack becomes
    /// the variable.
    pub open spec fn name_defined(self, offset: u8) -> ParserView {
        let (parsed, global) = self.variable_parsed("Expect variable name."@);
        match global {
            Some(global) => parsed.emitted(opcode::DEFINE_GLOBAL).emitted_all(le_bytes(global)).emitted(offset),
            None => parsed.emitted(opcode::DEFINE_LOCAL).emitted(offset),
        }
    }

    /// The parser after the names of a declaration were compiled, the
    /// first with the peek offset `offset` and each further one with an
    /// offset one less, down to 0; and the offset that was reached.
    #[verifier::opaque]
    pub open spec fn names_compiled(self, offset: u8) -> (ParserView, u8)
        decreases offset,
    {
        if self.current.kind != TokenKind::NameIs {
            (self, offset)
        } else if offset > 0 {
            self.advanced().name_defined(offset).names_compiled((offset - 1) as u8)
        } else {
            (self.advanced().name_defined(offset), 0)
        }
    }

    /// The parser after a declaration was compiled, behind its leading
    /// token: the count, the type, as many values as the count says, and the
    /// names. Where there are names, each value must get one, and the values
    /// are popped; without names the values stay on the stack.
    #[verifier::opaque]
    pub open spec fn values_declared(self) -> ParserView {
        let counted = self.advanced();
        let typed = counted.advanced();
        match counted.previous.number {
            None => typed.failed_at(typed.previous, "expect a number in declaration."@),
            Some(bits) => {
                let count = number_count(bits) as u8;
                let values = typed.values_compiled(count as nat);
                let first = if count == 0 {
                    255u8
                } else {
                    (count - 1) as u8
                };
                let (named, offset) = values.names_compiled(first);
                if values.current.kind != TokenKind::NameIs {
                    named
                } else if offset != 0 {
                    named.failed_at(named.previous, "expect named all variable you declared."@)
                } else {
                    named.emitted_all(Seq::new(count as nat, |i: int| opcode::POP))
                }
            },
        }
    }

    /// The parser after the arguments of a call were compiled, and their
    /// number added to `count`: expressions as long as a literal or a name
    /// follows.
    #[verifier::opaque]
    pub open spec fn arguments_compiled(self, count: u32) -> (ParserView, u32)
        decreases self.remaining(),
    {
        if is_literal_kind(self.current.kind) {
            let value = self.expressed();
            let counted = if count < u32::MAX {
                value
            } else {
                value.failed_at(value.previous, "Too many arguments."@)
            };
            let more = if count < u32::MAX {
                (count + 1) as u32
            } else {
                count
            };
            if 0 <= counted.remaining() < self.remaining() {
                counted.arguments_compiled(more)
            } else {
                (counted, more)
            }
        } else {
            (self, count)
        }
    }

    /// The parser after `施 f 以 a1 a2 ..` was compiled: the callee, the
    /// arguments, then CALL with the number of arguments.
    #[verifier::opaque]
    pub open spec fn call_compiled(self) -> ParserView {
        let callee = self.advanced().expressed();
        let ready = if callee.current.kind == TokenKind::PrepositionRight {
            callee.advanced()
        } else {
            callee.consumed(TokenKind::PrepositionLeft, "only support '以' or '於' in function call now."@)
        };
        let (arguments, count) = ready.arguments_compiled(0);
        arguments.emitted(opcode::CALL).emitted_all(le_bytes(count))
    }

    /// The parser after it skipped to the next token with which a
    /// statement can start.
    #[verifier::opaque]
    pub open spec fn resynchronized(self) -> ParserView
        decreases self.remaining(),
    {
        if starts_statement(self.current.kind) {
            self
        } else {
            let next = self.advanced();
            if 0 <= next.remaining() < self.remaining() {
                next.resynchronized()
            } else {
                next
            }
        }
    }

    /// The parser after an error: errors are reported again from the next
    /// token with which a statement can start.
    pub open spec fn synchronized(self) -> ParserView {
        (ParserView { panic_mode: false, ..self }).resynchronized()
    }

    /// The parser with one more scope open.
    pub open spec fn scope_begun(self) -> ParserView {
        ParserView {
            frame: CompilerFrame { scope_depth: (self.frame.scope_depth + 1) as i8, ..self.frame },
            ..self
        }
    }

    /// Whether a block ends before a token of kind `kind`: at one of
    /// `stops`, at `云云` or `也`, or at the end of the input.
    pub open spec fn block_ends(self, stops: Seq<Token>) -> bool {
        kind_among(self.current.kind, stops) || self.current.kind == TokenKind::YunYun || self.current.kind
            == TokenKind::Ye || self.current.kind == TokenKind::Eof
    }

    /// The parser after the statement that starts with the current token
    /// was compiled.
    ///
    /// In this and the functions it depends on, the conditions on what is
    /// left to read are always met by a valid parser; they show that
    /// compiling ends.
    #[verifier::opaque]
    pub open spec fn statement_compiled(self) -> ParserView
        decreases self.remaining(), 3int,
    {
        let kind = self.current.kind;
        if kind == TokenKind::Plus || kind == TokenKind::Minus || kind == TokenKind::Star {
            self.arithmetic_compiled(kind)
        } else if kind == TokenKind::Invert {
            self.advanced().expressed().emitted(opcode::INVERT)
        } else if kind == TokenKind::Print {
            self.advanced().emitted(opcode::PRINT)
        } else if kind == TokenKind::AssignFrom {
            self.assignment_compiled()
        } else if kind == TokenKind::NameIs {
            self.name_compiled()
        } else if kind == TokenKind::If {
            self.conditional_compiled()
        } else if kind == TokenKind::Fu {
            let value = self.advanced().expressed();
            if is_literal_kind(value.current.kind) {
                value.connective_compiled()
            } else {
                value
            }
        } else if kind == TokenKind::Loop {
            self.loop_compiled()
        } else if kind == TokenKind::For {
            self.counted_compiled()
        } else if kind == TokenKind::Break {
            self.advanced().emitted(opcode::BREAK)
        } else if kind == TokenKind::Fun {
            self.function_defined()
        } else if kind == TokenKind::Call {
            self.call_compiled()
        } else if kind == TokenKind::Return {
            self.return_compiled()
        } else {
            self.expression_compiled()
        }
    }

    /// The parser after one declaration or statement was compiled. After
    /// an error the parser skips to where the next statement can start.
    #[verifier::opaque]
    pub open spec fn declaration_compiled(self) -> ParserView
        decreases self.remaining(), 4int,
    {
        let compiled = if self.current.kind == TokenKind::Decl {
            self.advanced().values_declared()
        } else if self.current.kind == TokenKind::DeclShort {
            self.advanced().advanced().expressed()
        } else {
            self.statement_compiled()
        };
        if compiled.has_error {
            compiled.synchronized()
        } else {
            compiled
        }
    }

    /// The parser after the statements of a block were compiled.
    #[verifier::opaque]
    pub open spec fn block_body(self, stops: Seq<Token>) -> ParserView
        decreases self.remaining(), 5int,
    {
        if self.block_ends(stops) {
            self
        } else {
            let next = self.declaration_compiled();
            if 0 <= next.remaining() < self.remaining() {
                next.block_body(stops)
            } else {
                next
            }
        }
    }

    /// The parser after a block was compiled: a scope with statements up
    /// to `云云` or `也`, which is consumed, or up to one of `stops`, which is
    /// not.
    #[verifier::opaque]
    pub open spec fn block_compiled(self, stops: Seq<Token>) -> ParserView
        decreases self.remaining(), 6int,
    {
        if self.frame.scope_depth == i8::MAX {
            self.failed_at(self.previous, "Too many nested scopes."@)
        } else if self.scope_begun().remaining() != self.remaining() {
            self
        } else {
            let inside = self.scope_begun().block_body(stops);
            let ended = if inside.current.kind == TokenKind::YunYun || inside.current.kind == TokenKind::Ye {
                inside.advanced()
            } else if kind_among(inside.current.kind, stops) {
                inside
            } else {
                inside.failed_at(inside.previous, "expect end token in block statement."@)
            };
            ended.scope_ended()
        }
    }

    /// The parser after `若 <cond> 者 <then> [若非 <else>] 云云` was compiled:
    /// the condition, JUMP_IF_FALSE over the first branch, POP, the first
    /// branch, JUMP over the second branch, POP, the second branch.
    #[verifier::opaque]
    pub open spec fn conditional_compiled(self) -> ParserView
        decreases self.remaining(), 0int,
    {
        let test = self.advanced().expression_compiled().consumed(TokenKind::Conjunction, "expect '者'"@);
        let then_jump = test.code().len() as int + 1;
        let jumped = test.emitted_jump(opcode::JUMP_IF_FALSE).emitted(opcode::POP);
        if !(0 <= jumped.remaining() < self.remaining()) {
            jumped
        } else {
            let first = jumped.block_compiled(seq![Token::Else]);
            let else_jump = first.code().len() as int + 1;
            let skipped = first.emitted_jump(opcode::JUMP).patched_jump(then_jump).emitted(opcode::POP);
            let second = if skipped.current.kind == TokenKind::Else {
                let other = skipped.advanced();
                if 0 <= other.remaining() < self.remaining() {
                    other.block_compiled(Seq::empty())
                } else {
                    other
                }
            } else {
                skipped
            };
            second.patched_jump(else_jump)
        }
    }

    /// The parser after `恆為是 <body> 云云` was compiled: RECORD_BREAK, the
    /// body, LOOP back to the body, DISCARD_BREAK.
    #[verifier::opaque]
    pub open spec fn loop_compiled(self) -> ParserView
        decreases self.remaining(), 0int,
    {
        let entered = self.advanced();
        let break_jump = entered.code().len() as int + 1;
        let recorded = entered.emitted_jump(opcode::RECORD_BREAK);
        let loop_start = recorded.code().len() as int;
        if !(0 <= recorded.remaining() < self.remaining()) {
            recorded
        } else {
            recorded.block_compiled(Seq::empty()).emitted_loop(loop_start).patched_jump(break_jump).emitted(
                opcode::DISCARD_BREAK,
            )
        }
    }

    /// The test of a counted loop, whether the local in `slot` is above 0,
    /// with the jump out of the loop and the jump to the body.
    #[verifier::opaque]
    pub open spec fn countdown_tested(self, slot: u32) -> ParserView {
        self.emitted(opcode::GET_LOCAL).emitted_all(le_bytes(slot)).emitted_constant(
            Value::Number(NUMBER_ZERO),
        ).emitted(opcode::GREATER).emitted_jump(opcode::JUMP_IF_FALSE).emitted(opcode::POP).emitted_jump(
            opcode::JUMP,
        )
    }

    /// The step of a counted loop: 1 is taken off the local in `slot`.
    #[verifier::opaque]
    pub open spec fn countdown_stepped(self, slot: u32) -> ParserView {
        self.emitted(opcode::GET_LOCAL).emitted_all(le_bytes(slot)).emitted_constant(
            Value::Number(NUMBER_ONE),
        ).emitted(opcode::SUBTRACT).emitted(opcode::PREPOSITION_RIGHT).emitted(opcode::SET_LOCAL).emitted_all(
            le_bytes(slot),
        )
    }

    /// The parser after the loop of a counted loop was compiled, inside
    /// its scope: RECORD_BREAK, the hidden local that takes the count, the
    /// test, the step with LOOP back to the test, the body with LOOP back to
    /// the step, POP, DISCARD_BREAK.
    #[verifier::opaque]
    pub open spec fn counted_inside(self) -> ParserView
        decreases self.remaining(), 8int,
    {
        let break_jump = self.code().len() as int + 1;
        let defined = defined_local(self.emitted_jump(opcode::RECORD_BREAK), "inner_for_loop_var"@);
        let slot = match defined.frame.slot_of("inner_for_loop_var"@) {
            Some(slot) => slot,
            None => 0,
        };
        let loop_start = defined.code().len() as int;
        let tested = defined.countdown_tested(slot);
        let exit_jump = tested.code().len() - 10;
        let body_jump = tested.code().len() - 4;
        let increase_start = tested.code().len() as int;
        let stepped = tested.countdown_stepped(slot).emitted_loop(loop_start).patched_jump(body_jump);
        if stepped.remaining() != self.remaining() {
            stepped
        } else {
            stepped.block_compiled(Seq::empty()).emitted_loop(increase_start).patched_jump(exit_jump).emitted(
                opcode::POP,
            ).patched_jump(break_jump).emitted(opcode::DISCARD_BREAK)
        }
    }

    /// The parser after `為是 e 遍 <body> 云云` was compiled: the count, then
    /// the loop in a scope of its own.
    #[verifier::opaque]
    pub open spec fn counted_compiled(self) -> ParserView
        decreases self.remaining(), 0int,
    {
        let counted = self.advanced().expressed().consumed(TokenKind::ForMid, "expect '遍' in for statement."@);
        if counted.frame.scope_depth == i8::MAX {
            counted.failed_at(counted.previous, "Too many nested scopes."@)
        } else if !(0 <= counted.scope_begun().remaining() < self.remaining()) {
            counted
        } else {
            counted.scope_begun().counted_inside().scope_ended()
        }
    }

    /// The parser after one more parameter was counted.
    pub open spec fn parameter_added(self) -> ParserView {
        if self.frame.function.arity < usize::MAX {
            ParserView {
                frame: CompilerFrame {
                    function: FunctionView {
                        arity: (self.frame.function.arity + 1) as usize,
                        ..self.frame.function
                    },
                    ..self.frame
                },
                ..self
            }
        } else {
            self.failed_at(self.previous, "Too many parameters."@)
        }
    }

    /// The parser after the parameters of a function were compiled: up to
    /// `是術曰`, each `曰 x` is a parameter, which is a local that takes the
    /// value on top of the stack; other tokens are skipped.
    #[verifier::opaque]
    pub open spec fn parameters_compiled(self) -> ParserView
        decreases self.remaining(),
    {
        if self.current.kind == TokenKind::FunctionBodyBegin || self.current.kind == TokenKind::Eof {
            self
        } else {
            let next = if self.current.kind == TokenKind::Is {
                self.advanced().parameter_added().variable_parsed("expect a parameter name."@).0.emitted(
                    opcode::DEFINE_LOCAL,
                ).emitted(0)
            } else {
                self.advanced()
            };
            if 0 <= next.remaining() < self.remaining() {
                next.parameters_compiled()
            } else {
                next
            }
        }
    }

    /// The parser as it starts to compile a function of kind `kind` that
    /// is named by the previous token.
    pub open spec fn function_entered(self, kind: FunctionType) -> ParserView {
        ParserView {
            frame: CompilerFrame {
                locals: Seq::empty(),
                scope_depth: 0,
                function: FunctionView {
                    arity: 0,
                    chunk: ChunkView::empty(),
                    name: self.previous_text(),
                    upvalues_count: 0,
                },
                fun_kind: kind,
            },
            ..self
        }
    }

    /// The parser after the function that it has compiled was finished and
    /// put into the function table, back in the function `outer` around it.
    /// A function with an error, with a chunk that is not valid, or for
    /// which the table has no room is not put into the table.
    #[verifier::opaque]
    pub open spec fn function_registered(self, outer: CompilerFrame) -> ParserView {
        let function = self.emitted(opcode::NIL).emitted(opcode::RETURN).frame.function;
        let ended = ParserView { frame: outer, ..self };
        if self.has_error {
            ended
        } else if !well_formed(function.chunk.code) {
            ended.failed_at(ended.previous, "Malformed code."@)
        } else if ended.runtime.closures.len() >= 0x1_0000_0000 {
            ended.failed_at(ended.previous, "Too many functions."@)
        } else {
            ParserView {
                runtime: RuntimeView {
                    closures: ended.runtime.closures.push(
                        ClosureView {
                            function,
                            upvalues: Seq::new(function.upvalues_count as nat, |i: int| Value::Nil),
                        },
                    ),
                    ..ended.runtime
                },
                ..ended
            }
        }
    }

    /// The parser after the function that it has compiled was put into
    /// the function table and the constant that refers to it was emitted
    /// into the chunk of the function `outer` around it.
    #[verifier::opaque]
    pub open spec fn function_finished(self, outer: CompilerFrame) -> ParserView {
        let registered = self.function_registered(outer);
        if registered.has_error {
            registered
        } else {
            let id = (registered.runtime.closures.len() - 1) as u32;
            let (made, constant) = registered.made_constant(Value::Function(id));
            match constant {
                Some(constant) => made.emitted(opcode::CONSTANT).emitted_all(le_bytes(constant)),
                None => made,
            }
        }
    }

    /// The parser after a function of kind `kind`, named by the previous
    /// token, was compiled:
    /// `[欲行是術 必先得 曰 x1 曰 x2 ..] 是術曰 <body> 是謂 N 之術也`.
    #[verifier::opaque]
    pub open spec fn function_compiled(self, kind: FunctionType) -> ParserView
        decreases self.remaining(), 7int,
    {
        let entered = self.function_entered(kind).scope_begun();
        let ready = if entered.current.kind == TokenKind::FunctionReady {
            entered.advanced().consumed(TokenKind::FunctionArg, "expect '必先得'"@).parameters_compiled()
        } else {
            entered
        };
        let begun = ready.consumed(TokenKind::FunctionBodyBegin, "expect '是術曰'."@);
        if !(0 <= begun.remaining() <= self.remaining()) {
            begun
        } else {
            begun.block_compiled(seq![Token::FunctionEnd1]).consumed(
                TokenKind::FunctionEnd1,
                "expect '是謂' in function end."@,
            ).consumed(TokenKind::Identifier, "expect identifier in function end."@).consumed(
                TokenKind::FunctionEnd2,
                "expect '之術也' in function end."@,
            ).function_finished(self.frame)
        }
    }

    /// The parser after `吾有一術 名之曰 N ..` was compiled: the function, then
    /// its definition under the name N, as a global or inside a scope as a
    /// local.
    #[verifier::opaque]
    pub open spec fn function_defined(self) -> ParserView
        decreases self.remaining(), 0int,
    {
        let (named, global) = self.advanced().consumed(
            TokenKind::NameIs,
            "expect '名之曰' in function declaration."@,
        ).variable_parsed("expect function name."@);
        if !(0 <= named.remaining() < self.remaining()) {
            named
        } else {
            let compiled = named.function_compiled(FunctionType::Function);
            match global {
                Some(global) => compiled.emitted(opcode::DEFINE_GLOBAL).emitted_all(le_bytes(global)).emitted(0),
                None => if compiled.frame.scope_depth > 0 {
                    compiled.emitted(opcode::DEFINE_LOCAL).emitted(0)
                } else {
                    compiled
                },
            }
        }
    }

    /// The parser after every declaration and statement up to the end of
    /// the input was compiled.
    #[verifier::opaque]
    pub open spec fn program_compiled(self) -> ParserView
        decreases self.remaining(), 9int,
    {
        if self.current.kind == TokenKind::Eof {
            self.advanced()
        } else {
            let next = self.declaration_compiled();
            if 0 <= next.remaining() < self.remaining() {
                next.program_compiled()
            } else {
                next
            }
        }
    }

    /// The parser after the source was compiled, before the script is
    /// finished.
    pub open spec fn source_compiled(self) -> ParserView {
        (ParserView { has_error: false, panic_mode: false, ..self }).advanced().program_compiled().consumed(
            TokenKind::Eof,
            "Expect end of expression"@,
        )
    }

    /// The state is consistent: the scanner stands inside the source, the
    /// end of the input is the current token only when the scanner stands at
    /// the end, the texts of the tokens lie in the source, a parser that
    /// looks for the next statement has seen an error, an error was
    /// reported, and runtime and compilation state are valid.
    pub open spec fn valid(self) -> bool {
        &&& 0 <= self.cursor <= self.chars.len() < usize::MAX
        &&& 1 <= self.scan_line <= self.cursor + 1
        &&& self.current.kind == TokenKind::Eof ==> self.cursor == self.chars.len()
        &&& 0 <= self.current.start <= self.current.end <= self.chars.len()
        &&& 0 <= self.previous.start <= self.previous.end <= self.chars.len()
        &&& 0 <= self.number_cursor <= self.cursor
        &&& self.panic_mode ==> self.has_error
        &&& self.has_error ==> self.diagnostics.len() > 0
        &&& self.runtime.valid()
        &&& self.frame.valid()
    }
}

/// The parser after a source was compiled from scratch and its script put
/// into the function table of `runtime`.
pub open spec fn compiled(chars: Seq<char>, numbers: Seq<Option<u64>>, runtime: RuntimeView) -> ParserView {
    ParserView::initial(chars, numbers, runtime).source_compiled().function_registered(
        CompilerFrame::fresh(FunctionType::Empty),
    )
}

/// Whether `kind` is a comparison.
pub open spec fn is_comparison(kind: TokenKind) -> bool {
    kind == TokenKind::BangEqual || kind == TokenKind::EqualEqual || kind == TokenKind::BangGreater || kind
        == TokenKind::BangLess || kind == TokenKind::Less || kind == TokenKind::Greater
}

/// The opcode that compares as the comparison `kind` does, or as its
/// opposite where `kind` is negated.
pub open spec fn comparison_opcode(kind: TokenKind) -> u8 {
    if kind == TokenKind::BangEqual || kind == TokenKind::EqualEqual {
        opcode::EQUAL_EQUAL
    } else if kind == TokenKind::Greater || kind == TokenKind::BangGreater {
        opcode::GREATER
    } else {
        opcode::LESS
    }
}

/// Whether the comparison `kind` is the opposite of another.
pub open spec fn is_negated(kind: TokenKind) -> bool {
    kind == TokenKind::BangEqual || kind == TokenKind::BangGreater || kind == TokenKind::BangLess
}

/// The code holds a loop from `start` to its end: RECORD_BREAK at `start`,
/// the body behind it, then LOOP and DISCARD_BREAK. The break target is the
/// DISCARD_BREAK, the first instruction behind the loop, and LOOP leads
/// back to the first instruction of the body.
pub open spec fn loop_shape(code: Seq<u8>, start: int) -> bool {
    let end = code.len() as int;
    &&& 0 <= start
    &&& start + 11 <= end
    &&& code[start] == opcode::RECORD_BREAK
    &&& code[end - 6] == opcode::LOOP
    &&& code[end - 1] == opcode::DISCARD_BREAK
    &&& jump_target(code, start) == end - 1
    &&& jump_target(code, end - 6) == start + 5
}

/// The code holds a loop from `start` to its end whose break target is the
/// DISCARD_BREAK at its end: RECORD_BREAK at `start` leads to the last
/// byte, which is DISCARD_BREAK.
pub open spec fn break_shape(code: Seq<u8>, start: int) -> bool {
    let end = code.len() as int;
    &&& 0 <= start
    &&& start + 6 <= end
    &&& code[start] == opcode::RECORD_BREAK
    &&& code[end - 1] == opcode::DISCARD_BREAK
    &&& jump_target(code, start) == end - 1
}

/// The code holds a conditional that ends at its end: JUMP_IF_FALSE at
/// `test` and POP, the branch taken on true, JUMP at `skip`, then POP and
/// the other branch. JUMP_IF_FALSE leads to the POP of the other branch,
/// JUMP to the end.
pub open spec fn conditional_shape(code: Seq<u8>, test: int, skip: int) -> bool {
    &&& 0 <= test
    &&& test + 6 <= skip
    &&& skip + 6 <= code.len()
    &&& code[test] == opcode::JUMP_IF_FALSE
    &&& code[test + 5] == opcode::POP
    &&& code[skip] == opcode::JUMP
    &&& code[skip + 5] == opcode::POP
    &&& jump_target(code, test) == skip + 5
    &&& jump_target(code, skip) == code.len()
}

/// Whether a statement can start with a token of kind `kind`, or the
/// input ends there: the places at which the parser finds its way again
/// after an error.
pub open spec fn starts_statement(kind: TokenKind) -> bool {
    kind == TokenKind::Decl || kind == TokenKind::DeclShort || kind == TokenKind::Fun || kind
        == TokenKind::Call || kind == TokenKind::Print || kind == TokenKind::If || kind == TokenKind::Fu
        || kind == TokenKind::Loop || kind == TokenKind::For || kind == TokenKind::Break || kind
        == TokenKind::AssignFrom || kind == TokenKind::Plus || kind == TokenKind::Minus || kind
        == TokenKind::Star || kind == TokenKind::Invert || kind == TokenKind::Eof
}

/// Whether a token of kind `kind` starts a literal or names a variable.
pub open spec fn is_literal_kind(kind: TokenKind) -> bool {
    kind == TokenKind::True || kind == TokenKind::False || kind == TokenKind::String || kind
        == TokenKind::Number || kind == TokenKind::Identifier
}

/// Whether one of `tokens` is of kind `kind`.
pub open spec fn kind_among(kind: TokenKind, tokens: Seq<Token>) -> bool {
    exists|i: int| 0 <= i < tokens.len() && (#[trigger] tokens[i]).kind() == kind
}

/// The parser after the local `name` was declared and code was emitted
/// that moves the value on top of the stack into it.
pub open spec fn defined_local(parser: ParserView, name: Seq<char>) -> ParserView {
    parser.with_local(name).emitted(opcode::DEFINE_LOCAL).emitted(0).emitted(opcode::POP)
}

/// How compiling a piece of the source changes the parser: it reads on in
/// the same source, and only adds to what was there: diagnostics, code,
/// constants, locals, functions and strings. Name, kind and scope depth of
/// the function that is compiled stay, and an error stays an error. A
/// local that was added lies in the open scope, and a function that was
/// added has a valid chunk.
#[verifier::opaque]
pub open spec fn follows(before: ParserView, after: ParserView) -> bool {
    &&& after.chars == before.chars
    &&& after.numbers == before.numbers
    &&& after.remaining() <= before.remaining()
    &&& before.has_error ==> after.has_error
    &&& before.diagnostics.is_prefix_of(after.diagnostics)
    &&& after.frame.fun_kind == before.frame.fun_kind
    &&& after.frame.scope_depth == before.frame.scope_depth
    &&& after.frame.function.name == before.frame.function.name
    &&& after.frame.function.upvalues_count == before.frame.function.upvalues_count
    &&& before.code().is_prefix_of(after.code())
    &&& before.chunk().constants.is_prefix_of(after.chunk().constants)
    &&& before.frame.locals.is_prefix_of(after.frame.locals)
    &&& before.runtime.closures.is_prefix_of(after.runtime.closures)
    &&& after.runtime.frames == before.runtime.frames
    &&& after.runtime.interner.first == before.runtime.interner.first
    &&& before.runtime.interner.texts.is_prefix_of(after.runtime.interner.texts)
    &&& forall|i: int|
        before.frame.locals.len() <= i < after.frame.locals.len() ==> (#[trigger] after.frame.locals[i]).depth
            == after.frame.scope_depth
    &&& forall|i: int|
        before.runtime.closures.len() <= i < after.runtime.closures.len() ==> well_formed(
            (#[trigger] after.runtime.closures[i]).function.chunk.code,
        )
}

pub broadcast proof fn lemma_follows_itself(parser: ParserView)
    ensures
        #[trigger] follows(parser, parser),
{
    reveal(follows);
}

/// What `follows` says, piece by piece.
pub proof fn lemma_follows(before: ParserView, after: ParserView)
    requires
        follows(before, after),
    ensures
        after.chars == before.chars,
        after.numbers == before.numbers,
        after.remaining() <= before.remaining(),
        before.has_error ==> after.has_error,
        before.diagnostics.is_prefix_of(after.diagnostics),
        after.frame.fun_kind == before.frame.fun_kind,
        after.frame.scope_depth == before.frame.scope_depth,
        after.frame.function.name == before.frame.function.name,
        after.frame.function.upvalues_count == before.frame.function.upvalues_count,
        before.code().is_prefix_of(after.code()),
        before.chunk().constants.is_prefix_of(after.chunk().constants),
        before.frame.locals.is_prefix_of(after.frame.locals),
        before.runtime.closures.is_prefix_of(after.runtime.closures),
        after.runtime.frames == before.runtime.frames,
        after.runtime.interner.first == before.runtime.interner.first,
        before.runtime.interner.texts.is_prefix_of(after.runtime.interner.texts),
        forall|i: int|
            before.frame.locals.len() <= i < after.frame.locals.len() ==> (#[trigger] after.frame.locals[i]).depth
                == after.frame.scope_depth,
        forall|i: int|
            before.runtime.closures.len() <= i < after.runtime.closures.len() ==> well_formed(
                (#[trigger] after.runtime.closures[i]).function.chunk.code,
            ),
{
    reveal(follows);
}

pub broadcast proof fn lemma_follows_on(first: ParserView, second: ParserView, third: ParserView)
    requires
        #[trigger] follows(first, second),
        #[trigger] follows(second, third),
    ensures
        follows(first, third),
{
    reveal(follows);
    assert forall|i: int| first.frame.locals.len() <= i < third.frame.locals.len() implies (#[trigger] third.frame.locals[i]).depth
        == third.frame.scope_depth by {
        if i < second.frame.locals.len() {
            assert(third.frame.locals[i] == second.frame.locals[i]);
        }
    }
    assert forall|i: int| first.runtime.closures.len() <= i < third.runtime.closures.len() implies well_formed(
        (#[trigger] third.runtime.closures[i]).function.chunk.code,
    ) by {
        if i < second.runtime.closures.len() {
            assert(third.runtime.closures[i] == second.runtime.closures[i]);
        }
    }
}

pub proof fn lemma_failed_follows(parser: ParserView, token: TokenView, message: Seq<char>)
    ensures
        follows(parser, parser.failed_at(token, message)),
        parser.valid() ==> parser.failed_at(token, message).valid(),
        parser.failed_at(token, message).has_error,
{
    reveal(follows);
}

/// What patching the operand at `index` does: everything stays but the
/// four bytes of the operand, which after the patch lead to the end of the
/// code; an error may have been found.
pub open spec fn patched_follows(before: ParserView, after: ParserView, index: int) -> bool {
    &&& after.code().len() == before.code().len()
    &&& forall|i: int|
        0 <= i < before.code().len() && !(index <= i < index + 4) ==> after.code()[i] == before.code()[i]
    &&& !after.has_error ==> crate::chunk::le_value(after.code(), index) == before.code().len() - index - 4
    &&& after.chunk().constants == before.chunk().constants
    &&& after.chunk().lines == before.chunk().lines
    &&& after.frame.locals == before.frame.locals
    &&& after.frame.scope_depth == before.frame.scope_depth
    &&& after.frame.fun_kind == before.frame.fun_kind
    &&& after.frame.function == (FunctionView { chunk: after.chunk(), ..before.frame.function })
    &&& after.runtime == before.runtime
    &&& after.chars == before.chars
    &&& after.numbers == before.numbers
    &&& after.cursor == before.cursor
    &&& after.current == before.current
    &&& before.has_error ==> after.has_error
    &&& before.diagnostics.is_prefix_of(after.diagnostics)
}

/// Emitting one more byte is emitting a sequence that is longer by it.
pub proof fn lemma_emitted_more(parser: ParserView, bytes: Seq<u8>, byte: u8)
    ensures
        parser.emitted_all(bytes).emitted(byte) == parser.emitted_all(bytes.push(byte)),
        parser.emitted_all(Seq::empty()) == parser,
{
    let line = parser.previous.line;
    let longer = bytes.push(byte);
    assert(parser.chunk().extended(bytes, line).written(byte, line).code =~= parser.chunk().extended(
        longer,
        line,
    ).code);
    assert(parser.chunk().extended(bytes, line).written(byte, line).lines =~= parser.chunk().extended(
        longer,
        line,
    ).lines);
    assert(parser.chunk().extended(Seq::empty(), line).code =~= parser.chunk().code);
    assert(parser.chunk().extended(Seq::empty(), line).lines =~= parser.chunk().lines);
}

/// Line tracking: a byte that is emitted has the line of the token that the
/// parser read last, and the bytes before it keep their lines.
pub proof fn lemma_emitted_line(parser: ParserView, byte: u8)
    requires
        parser.chunk().lines.len() == parser.code().len(),
    ensures
        parser.emitted(byte).code() == parser.code().push(byte),
        parser.emitted(byte).chunk().line_at(parser.code().len() as int) == parser.previous.line,
        forall|i: int|
            0 <= i < parser.code().len() ==> parser.emitted(byte).chunk().line_at(i) == parser.chunk().line_at(i),
{
}

/// What follows keeps the code that was there and keeps an error.
pub proof fn lemma_follows_code(before: ParserView, after: ParserView)
    requires
        follows(before, after),
    ensures
        before.code().len() <= after.code().len(),
        forall|i: int| 0 <= i < before.code().len() ==> #[trigger] after.code()[i] == before.code()[i],
        before.has_error ==> after.has_error,
{
    reveal(follows);
    assert forall|i: int| 0 <= i < before.code().len() implies #[trigger] after.code()[i] == before.code()[i] by {
        assert(after.code().subrange(0, before.code().len() as int)[i] == after.code()[i]);
    }
}

/// A patch behind what was there at `start` does not change what
/// follows `start`.
pub proof fn lemma_patch_follows(start: ParserView, before: ParserView, after: ParserView, index: int)
    requires
        follows(start, before),
        patched_follows(before, after, index),
        start.code().len() <= index,
    ensures
        follows(start, after),
{
    reveal(follows);
    assert(start.code() =~= after.code().subrange(0, start.code().len() as int)) by {
        assert forall|i: int| 0 <= i < start.code().len() implies start.code()[i] == after.code()[i] by {
            assert(before.code()[i] == start.code()[i]);
        }
    }
}

/// When a scope is closed in which only locals of that scope were added
/// to those that were there before, exactly those stay.
pub proof fn lemma_scope_restores(before: Seq<LocalView>, after: Seq<LocalView>, depth: Depth)
    requires
        before.is_prefix_of(after),
        forall|i: int| 0 <= i < before.len() ==> (#[trigger] before[i]).depth <= depth,
        forall|i: int| before.len() <= i < after.len() ==> (#[trigger] after[i]).depth > depth,
    ensures
        in_scope(after, depth) == before,
    decreases after.len(),
{
    if after.len() > before.len() {
        assert(after[after.len() - 1].depth > depth);
        let shorter = after.drop_last();
        assert(before.is_prefix_of(shorter));
        assert forall|i: int| before.len() <= i < shorter.len() implies (#[trigger] shorter[i]).depth > depth by {
            assert(shorter[i] == after[i]);
        }
        lemma_scope_restores(before, shorter, depth);
    } else {
        assert(after =~= before);
        if after.len() > 0 {
            assert(after[after.len() - 1].depth <= depth);
        }
    }
}

pub proof fn lemma_advanced_follows(parser: ParserView)
    requires
        parser.valid(),
    ensures
        follows(parser, parser.advanced()),
        parser.advanced().valid(),
        parser.current.kind != TokenKind::Eof ==> parser.advanced().remaining() < parser.remaining(),
{
    reveal(follows);
    reveal(ParserView::advanced);
    lemma_advanced(parser);
    let lexeme = lex(sorted_keyword_table(), parser.chars, parser.cursor, parser.scan_line);
    let token = parser.next_token();
    let moved = ParserView {
        cursor: lexeme.next,
        scan_line: lexeme.line,
        number_cursor: if lexeme.kind == TokenKind::Number {
            parser.number_cursor + 1
        } else {
            parser.number_cursor
        },
        previous: parser.current,
        current: token,
        ..parser
    };
    lemma_failed_follows(moved, token, token.message);
}

/// Moving on keeps a valid parser valid, reads on in the source without
/// going back, and leaves less to read unless the end was reached before.
pub proof fn lemma_advanced(parser: ParserView)
    requires
        parser.valid(),
    ensures
        parser.advanced().valid(),
        parser.advanced().remaining() <= parser.remaining(),
        parser.current.kind != TokenKind::Eof ==> parser.advanced().remaining() < parser.remaining(),
        parser.advanced().previous == parser.current,
        parser.advanced().frame == parser.frame,
        parser.advanced().runtime == parser.runtime,
{
    reveal(ParserView::advanced);
    lemma_sorted_table_usable();
    lemma_lex_bounds(sorted_keyword_table(), parser.chars, parser.cursor, parser.scan_line);
}

} // verus!
