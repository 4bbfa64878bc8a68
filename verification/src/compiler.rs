//! The single-pass compiler: per-function compilation state and the parser
//! that drives the scanner and emits code.

use vstd::prelude::*;
use vstd::string::StringExecFns;
use crate::chunk::{le_bytes, lemma_patched, well_formed, Chunk};
use crate::decimal::decimal_text;
use crate::interpreter::{Runtime, RuntimeView};
use crate::object::{ClosureId, ClosureView, Function};
use crate::opcode;
use crate::parsing::{
    defined_local, follows, lemma_failed_follows, patched_follows, starts_statement, lemma_advanced_follows, lemma_follows, in_scope, is_literal_kind, kind_among, lemma_advanced, lemma_follows_itself, lemma_follows_on, resolve,
    CompilerFrame, DiagnosticView, LocalView, ParserView, TokenView,
};
use crate::position::{Span, WithSpan};
use crate::scanner::Scanner;
use crate::statements::{
    assign_statement, binary_statement, boolean_algebra_statement, break_statement, call_statement,
    expression_statement, for_statement, for_while_statement, fun_statement, if_statement, name_is_statement,
    normal_declaration, print_statement, return_statement, short_declaration, unary_statement,
};
use crate::token::{Token, TokenKind};
use crate::value::Value;

verus! {

pub type Depth = i8;

/// A named slot of the function that is being compiled.
pub struct Local {
    name: String,
    depth: Depth,
}

impl View for Local {
    type V = LocalView;

    closed spec fn view(&self) -> LocalView {
        LocalView { name: self.name@, depth: self.depth }
    }
}

impl Default for Local {
    fn default() -> (local: Local)
        ensures
            local@ == (LocalView { name: Seq::empty(), depth: 0 }),
    {
        Self { name: String::new(), depth: 0 }
    }
}

#[derive(Debug, PartialEq, Eq, Clone, Copy, Structural)]
pub enum FunctionType {
    Script,
    Function,
    Empty,
}

pub struct Compiler {
    locals: Vec<Local>,
    scope_depth: Depth,
    function: Function,
    fun_kind: FunctionType,
    enclosing: Option<Box<Compiler>>,
}

impl Compiler {
    /// The state of this compiler alone, without those that enclose it.
    pub closed spec fn frame(&self) -> CompilerFrame {
        CompilerFrame {
            locals: Seq::new(self.locals@.len(), |i: int| self.locals@[i]@),
            scope_depth: self.scope_depth,
            function: self.function@,
            fun_kind: self.fun_kind,
        }
    }

    /// The compiler that encloses this one.
    pub closed spec fn outer(&self) -> Option<Box<Compiler>> {
        self.enclosing
    }

    /// This compiler and every compiler that encloses it is in a valid
    /// state.
    pub closed spec fn all_valid(&self) -> bool
        decreases self,
    {
        &&& self.frame().valid()
        &&& match self.enclosing {
            Some(outer) => outer.all_valid(),
            None => true,
        }
    }

    pub fn init(fun_kind: FunctionType) -> (compiler: Box<Self>)
        ensures
            compiler.frame() == CompilerFrame::fresh(fun_kind),
            compiler.outer() is None,
            compiler.frame().valid(),
            compiler.all_valid(),
    {
        let compiler = Box::new(
            Self { locals: Vec::new(), scope_depth: 0, function: Function::new(), fun_kind, enclosing: None },
        );
        assert(compiler.frame().locals =~= Seq::empty());
        compiler
    }

    pub fn begin_scope(&mut self)
        requires
            old(self).frame().scope_depth < i8::MAX,
        ensures
            final(self).frame() == (CompilerFrame {
                scope_depth: (old(self).frame().scope_depth + 1) as i8,
                ..old(self).frame()
            }),
            final(self).outer() == old(self).outer(),
    {
        self.scope_depth += 1;
    }

    pub fn scope_depth(&self) -> (depth: Depth)
        ensures
            depth == self.frame().scope_depth,
    {
        self.scope_depth
    }

    /// Declares a local named `name` in the open scope.
    pub fn add_local(&mut self, name: String)
        ensures
            final(self).frame() == (CompilerFrame {
                locals: old(self).frame().locals.push(
                    LocalView { name: name@, depth: old(self).frame().scope_depth },
                ),
                ..old(self).frame()
            }),
            final(self).outer() == old(self).outer(),
    {
        let ghost before = self.frame();
        let depth = self.scope_depth;
        self.locals.push(Local { name, depth });
        assert(self.frame().locals =~= before.locals.push(LocalView { name: name@, depth }));
    }

    pub fn set_enclosing(&mut self, enclosing: Box<Compiler>)
        ensures
            final(self).frame() == old(self).frame(),
            final(self).outer() == Some(enclosing),
            old(self).frame().valid() && enclosing.all_valid() ==> final(self).all_valid(),
    {
        self.enclosing = Some(enclosing);
    }

    /// Slot of the local named `name` that was declared last.
    pub fn resolve_local(&mut self, name: String) -> (slot: Option<u32>)
        requires
            old(self).frame().locals.len() <= u32::MAX,
        ensures
            slot == old(self).frame().slot_of(name@),
            final(self).frame() == old(self).frame(),
            final(self).outer() == old(self).outer(),
    {
        let ghost locals = self.frame().locals;
        let mut i: usize = self.locals.len();
        assert(locals.take(i as int) =~= locals);
        while i > 0
            invariant
                i <= self.locals@.len(),
                locals == self.frame().locals,
                locals.len() <= u32::MAX,
                resolve(locals, name@) == resolve(locals.take(i as int), name@),
            decreases i,
        {
            assert(locals.take(i as int).drop_last() =~= locals.take(i - 1));
            assert(locals.take(i as int).last() == self.locals@[i - 1]@);
            if self.locals[i - 1].name == name {
                return Some((i - 1) as u32);
            }
            i -= 1;
        }
        None
    }

    pub fn function_mut(&mut self) -> (function: &mut Function)
        ensures
            function@ == old(self).frame().function,
            final(self).frame() == (CompilerFrame { function: final(function)@, ..old(self).frame() }),
            final(self).outer() == old(self).outer(),
    {
        &mut self.function
    }

    pub fn fun_kind(&self) -> (kind: FunctionType)
        ensures
            kind == self.frame().fun_kind,
    {
        self.fun_kind
    }
}

/// A compile error as it is reported.
pub struct Diagnostic {
    line: usize,
    at_end: bool,
    message: String,
}

impl View for Diagnostic {
    type V = DiagnosticView;

    closed spec fn view(&self) -> DiagnosticView {
        DiagnosticView { line: self.line, at_end: self.at_end, message: self.message@ }
    }
}

impl Diagnostic {
    pub fn line(&self) -> (line: usize)
        ensures
            line == self@.line,
    {
        self.line
    }

    pub fn at_end(&self) -> (at_end: bool)
        ensures
            at_end == self@.at_end,
    {
        self.at_end
    }

    pub fn message(&self) -> (message: &str)
        ensures
            message@ == self@.message,
    {
        self.message.as_str()
    }

    /// The line that is written for the diagnostic.
    pub fn render(&self) -> (text: String)
        ensures
            text@ == self@.text(),
    {
        let mut text = String::from_str("[line ");
        text.append(decimal_text(self.line).as_str());
        text.append("] compiler error");
        if self.at_end {
            text.append(" at end");
        } else {
            assert(text@ + Seq::<char>::empty() =~= text@);
        }
        text.append(": ");
        text.append(self.message.as_str());
        text
    }
}

pub struct Parser<'a> {
    scanner: Scanner,
    buf: &'a str,
    numbers: &'a Vec<Option<u64>>,
    number_cursor: usize,
    current: WithSpan<Token>,
    previous: WithSpan<Token>,
    current_text: (usize, usize),
    previous_text: (usize, usize),
    current_number: Option<u64>,
    previous_number: Option<u64>,
    has_error: bool,
    panic_mode: bool,
    runtime: Runtime,
    current_compiler: Box<Compiler>,
    diagnostics: Vec<Diagnostic>,
}

impl<'a> View for Parser<'a> {
    type V = ParserView;

    closed spec fn view(&self) -> ParserView {
        ParserView {
            chars: self.scanner@.chars,
            cursor: self.scanner@.current,
            scan_line: self.scanner@.line,
            numbers: self.numbers@,
            number_cursor: self.number_cursor as int,
            current: TokenView {
                kind: self.current.value().kind(),
                message: self.current.value().spec_message(),
                line: self.current.line(),
                start: self.current_text.0 as int,
                end: self.current_text.1 as int,
                number: self.current_number,
            },
            previous: TokenView {
                kind: self.previous.value().kind(),
                message: self.previous.value().spec_message(),
                line: self.previous.line(),
                start: self.previous_text.0 as int,
                end: self.previous_text.1 as int,
                number: self.previous_number,
            },
            has_error: self.has_error,
            panic_mode: self.panic_mode,
            diagnostics: Seq::new(self.diagnostics@.len(), |i: int| self.diagnostics@[i]@),
            runtime: self.runtime@,
            frame: self.current_compiler.frame(),
        }
    }
}

broadcast use {lemma_follows_on, lemma_follows_itself};

impl<'a> Parser<'a> {
    /// The parser is consistent with its scanner and its state is valid.
    pub open spec fn wf(&self) -> bool {
        &&& self.scanning()
        &&& self@.valid()
        &&& self.nested_valid()
    }

    /// The compiler at work and every compiler around it is in a valid
    /// state.
    pub closed spec fn nested_valid(&self) -> bool {
        self.current_compiler.all_valid()
    }

    /// The scanner is well formed and reads the source of the parser.
    pub closed spec fn scanning(&self) -> bool {
        &&& self.scanner.wf()
        &&& self.buf@ == self.scanner@.chars
        &&& self.buf@ == self@.chars
    }

    /// The compiler that encloses the one that is at work.
    pub closed spec fn outer(&self) -> Option<Box<Compiler>> {
        self.current_compiler.outer()
    }

    /// The source that is compiled.
    pub closed spec fn source(&self) -> &'a str {
        self.buf
    }

    pub proof fn lemma_wf(&self)
        requires
            self.wf(),
        ensures
            self@.valid(),
            self.source()@ == self@.chars,
    {
    }

    /// A parser for `buf`. `numbers` holds, for each number token of `buf`
    /// in order, the double that the token stands for, if it stands for one.
    pub fn new(buf: &'a str, runtime: Runtime, numbers: &'a Vec<Option<u64>>) -> (parser: Self)
        requires
            buf@.len() < usize::MAX,
            runtime@.valid(),
        ensures
            parser.wf(),
            parser.source() == buf,
            parser@ == ParserView::initial(buf@, numbers@, runtime@),
            parser.outer() is Some,
            parser.outer()->0.frame() == CompilerFrame::fresh(FunctionType::Empty),
    {
        let scanner = Scanner::new(buf);
        let mut compiler = Compiler::init(FunctionType::Script);
        compiler.set_enclosing(Compiler::init(FunctionType::Empty));
        let parser = Self {
            scanner,
            buf,
            numbers,
            number_cursor: 0,
            current: WithSpan::new(Token::Error(String::new()), Span::new(0, 0), 1),
            previous: WithSpan::new(Token::Error(String::new()), Span::new(0, 0), 1),
            current_text: (0, 0),
            previous_text: (0, 0),
            current_number: None,
            previous_number: None,
            has_error: false,
            panic_mode: false,
            runtime,
            current_compiler: compiler,
            diagnostics: Vec::new(),
        };
        assert(parser@.diagnostics =~= Seq::<DiagnosticView>::empty());
        parser
    }

    pub fn current_code_len(&self) -> (len: usize)
        ensures
            len == self@.code().len(),
    {
        self.current_compiler.function.chunk().len()
    }

    pub fn current_chunk(&self) -> (chunk: &Chunk)
        ensures
            chunk@ == self@.chunk(),
    {
        self.current_compiler.function.chunk()
    }

    pub fn current_compiler(&self) -> (compiler: &Compiler)
        ensures
            compiler.frame() == self@.frame,
            compiler.outer() == self.outer(),
    {
        &self.current_compiler
    }

    pub fn current(&self) -> (token: &WithSpan<Token>)
        ensures
            token.value().kind() == self@.current.kind,
            token.value().spec_message() == self@.current.message,
            token.line() == self@.current.line,
    {
        &self.current
    }

    pub fn previous(&self) -> (token: &WithSpan<Token>)
        ensures
            token.value().kind() == self@.previous.kind,
            token.value().spec_message() == self@.previous.message,
            token.line() == self@.previous.line,
    {
        &self.previous
    }

    /// The errors that were reported, in order.
    pub fn diagnostics(&self) -> (diagnostics: &Vec<Diagnostic>)
        ensures
            diagnostics@.len() == self@.diagnostics.len(),
            forall|i: int| 0 <= i < diagnostics@.len() ==> (#[trigger] diagnostics@[i])@ == self@.diagnostics[i],
    {
        &self.diagnostics
    }

    pub fn had_error(&self) -> (failed: bool)
        ensures
            failed == self@.has_error,
    {
        self.has_error
    }

    /// Moves on by one token.
    pub fn advance(&mut self)
        requires
            old(self).wf(),
        ensures
            final(self).wf(),
            final(self)@ == old(self)@.advanced(),
            final(self)@.frame == old(self)@.frame,
            final(self)@.runtime == old(self)@.runtime,
            final(self)@.previous == old(self)@.current,
            final(self).outer() == old(self).outer(),
            final(self).source() == old(self).source(),
            follows(old(self)@, final(self)@),
            final(self)@.remaining() <= old(self)@.remaining(),
            old(self)@.code().len() <= final(self)@.code().len(),
            old(self)@.has_error ==> final(self)@.has_error,
            old(self)@.current.kind != TokenKind::Eof ==> final(self)@.remaining() < old(self)@.remaining(),
            follows(old(self)@, final(self)@),
    {
        proof {
            reveal(follows);
        }
        proof {
            reveal(ParserView::advanced);
            lemma_advanced(self@);
            lemma_advanced_follows(self@);
        }
        let token = self.scanner.scan_token();
        let text = (self.scanner.span_start(), self.scanner.span_end());
        let failure: Option<String> = match token.get_value() {
            Token::Error(msg) => Some(msg.clone()),
            _ => None,
        };
        let number: Option<u64> = match token.get_value() {
            Token::Number => {
                let found = if self.number_cursor < self.numbers.len() {
                    self.numbers[self.number_cursor]
                } else {
                    None
                };
                self.number_cursor = self.number_cursor + 1;
                found
            },
            _ => None,
        };
        std::mem::swap(&mut self.previous, &mut self.current);
        self.current = token;
        self.previous_text = self.current_text;
        self.current_text = text;
        self.previous_number = self.current_number;
        self.current_number = number;
        if let Some(msg) = failure {
            self.error_at_current(msg.as_str())
        }
    }

    /// Consumes the current token if it is of the kind of `token`; reports
    /// `msg` where it is not.
    pub fn consume(&mut self, token: Token, msg: &str)
        requires
            old(self).wf(),
        ensures
            final(self).wf(),
            final(self)@ == old(self)@.consumed(token.kind(), msg@),
            final(self).outer() == old(self).outer(),
            final(self).source() == old(self).source(),
            follows(old(self)@, final(self)@),
            final(self)@.remaining() <= old(self)@.remaining(),
            old(self)@.code().len() <= final(self)@.code().len(),
            old(self)@.has_error ==> final(self)@.has_error,
    {
        proof {
            reveal(follows);
        }
        if self.current.get_value().kind() == token.kind() {
            self.advance();
            return ;
        }
        self.error_at_current(msg);
    }

    /// Consumes the current token if it is of the kind of `token`, and
    /// says whether it was.
    pub fn is_match(&mut self, token: Token) -> (matched: bool)
        requires
            old(self).wf(),
        ensures
            final(self).wf(),
            matched == (old(self)@.current.kind == token.kind()),
            final(self)@ == if matched {
                old(self)@.advanced()
            } else {
                old(self)@
            },
            final(self).outer() == old(self).outer(),
            final(self).source() == old(self).source(),
            follows(old(self)@, final(self)@),
            final(self)@.remaining() <= old(self)@.remaining(),
            old(self)@.code().len() <= final(self)@.code().len(),
            old(self)@.has_error ==> final(self)@.has_error,
            matched && old(self)@.current.kind != TokenKind::Eof ==> final(self)@.remaining() < old(self)@.remaining(),
    {
        proof {
            reveal(follows);
        }
        if self.current.get_value().kind() == token.kind() {
            self.advance();
            true
        } else {
            false
        }
    }

    /// Whether the current token starts a literal or names a variable.
    pub fn is_match_literal(&self) -> (literal: bool)
        ensures
            literal == is_literal_kind(self@.current.kind),
    {
        match self.current.get_value() {
            Token::True | Token::False | Token::String | Token::Number | Token::Identifier => true,
            _ => false,
        }
    }

    /// Whether the current token is of the kind of `token`.
    pub fn check(&self, token: Token) -> (same: bool)
        ensures
            same == (self@.current.kind == token.kind()),
    {
        self.current.get_value().kind() == token.kind()
    }

    /// Whether the current token is of none of the kinds of `tokens`.
    pub fn check_not_in_vec(&self, tokens: &[Token]) -> (none: bool)
        ensures
            none == !kind_among(self@.current.kind, tokens@),
    {
        !self.check_in_vec(tokens)
    }

    /// Whether the current token is of one of the kinds of `tokens`.
    pub fn check_in_vec(&self, tokens: &[Token]) -> (any: bool)
        ensures
            any == kind_among(self@.current.kind, tokens@),
    {
        let kind = self.current.get_value().kind();
        let mut i: usize = 0;
        while i < tokens.len()
            invariant
                i <= tokens@.len(),
                kind == self@.current.kind,
                forall|j: int| 0 <= j < i ==> (#[trigger] tokens@[j]).kind() != kind,
            decreases tokens@.len() - i,
        {
            if tokens[i].kind() == kind {
                return true;
            }
            i += 1;
        }
        false
    }

    /// Reports `msg` for the current token, unless an earlier error still
    /// waits for the next statement.
    pub fn error_at_current(&mut self, msg: &str)
        ensures
            final(self)@ == old(self)@.failed_at(old(self)@.current, msg@),
            final(self).outer() == old(self).outer(),
            final(self).source() == old(self).source(),
            follows(old(self)@, final(self)@),
            final(self)@.remaining() <= old(self)@.remaining(),
            old(self)@.code().len() <= final(self)@.code().len(),
            old(self)@.has_error ==> final(self)@.has_error,
            old(self).wf() ==> final(self).wf(),
    {
        proof {
            reveal(follows);
        }
        proof {
            lemma_failed_follows(self@, self@.current, msg@);
        }
        self.has_error = true;
        if self.panic_mode {
            return ;
        }
        self.panic_mode = true;
        let line = self.current.get_line();
        let at_end = self.current.get_value().kind() == TokenKind::Eof;
        self.error_at(line, at_end, msg)
    }

    /// Reports `msg` for the previous token, unless an earlier error still
    /// waits for the next statement.
    pub fn error(&mut self, msg: &str)
        ensures
            final(self)@ == old(self)@.failed_at(old(self)@.previous, msg@),
            final(self).outer() == old(self).outer(),
            final(self).source() == old(self).source(),
            follows(old(self)@, final(self)@),
            final(self)@.remaining() <= old(self)@.remaining(),
            old(self)@.code().len() <= final(self)@.code().len(),
            old(self)@.has_error ==> final(self)@.has_error,
            old(self).wf() ==> final(self).wf(),
    {
        proof {
            reveal(follows);
        }
        proof {
            lemma_failed_follows(self@, self@.previous, msg@);
        }
        self.has_error = true;
        if self.panic_mode {
            return ;
        }
        self.panic_mode = true;
        let line = self.previous.get_line();
        let at_end = self.previous.get_value().kind() == TokenKind::Eof;
        self.error_at(line, at_end, msg)
    }

    /// Records a diagnostic for a token on line `line`.
    pub fn error_at(&mut self, line: usize, at_end: bool, msg: &str)
        ensures
            final(self)@ == (ParserView {
                diagnostics: old(self)@.diagnostics.push(DiagnosticView { line, at_end, message: msg@ }),
                ..old(self)@
            }),
            final(self).scanning() == old(self).scanning(),
            final(self).nested_valid() == old(self).nested_valid(),
            final(self).outer() == old(self).outer(),
            final(self).source() == old(self).source(),
            follows(old(self)@, final(self)@),
            final(self)@.remaining() <= old(self)@.remaining(),
            old(self)@.code().len() <= final(self)@.code().len(),
            old(self)@.has_error ==> final(self)@.has_error,
            old(self).wf() ==> final(self).wf(),
    {
        proof {
            reveal(follows);
        }
        let ghost before = self@;
        let diagnostic = Diagnostic { line, at_end, message: String::from_str(msg) };
        self.diagnostics.push(diagnostic);
        assert(self@.diagnostics =~= before.diagnostics.push(diagnostic@));
    }

    /// Appends `byte` to the code, for the line of the previous token.
    fn write_u8(&mut self, byte: u8)
        requires
            old(self)@.chunk().lines.len() == old(self)@.code().len(),
        ensures
            final(self)@ == old(self)@.emitted(byte),
            final(self).outer() == old(self).outer(),
            final(self).source() == old(self).source(),
            final(self).scanning() == old(self).scanning(),
            old(self).wf() ==> final(self).wf(),
    {
        let line_number = self.previous.get_line();
        self.current_compiler.function.chunk_mut().add_u8(byte, line_number);
    }

    pub fn emit_u8(&mut self, byte: u8)
        requires
            old(self).wf(),
        ensures
            final(self).wf(),
            final(self)@ == old(self)@.emitted(byte),
            final(self).outer() == old(self).outer(),
            final(self).source() == old(self).source(),
            follows(old(self)@, final(self)@),
            final(self)@.remaining() <= old(self)@.remaining(),
            old(self)@.code().len() <= final(self)@.code().len(),
            old(self)@.has_error ==> final(self)@.has_error,
    {
        proof {
            reveal(follows);
        }
        self.write_u8(byte);
    }

    pub fn emit_u32(&mut self, byte: u32)
        requires
            old(self).wf(),
        ensures
            final(self)@ == old(self)@.emitted_all(le_bytes(byte)),
            final(self).outer() == old(self).outer(),
            final(self).source() == old(self).source(),
            follows(old(self)@, final(self)@),
            final(self)@.remaining() <= old(self)@.remaining(),
            old(self)@.code().len() <= final(self)@.code().len(),
            old(self)@.has_error ==> final(self)@.has_error,
            old(self).wf() ==> final(self).wf(),
    {
        proof {
            reveal(follows);
        }
        let line_number = self.previous.get_line();
        self.current_compiler.function.chunk_mut().add_u32(byte, line_number);
    }

    pub fn emit_bytes(&mut self, byte1: u8, byte2: u32)
        requires
            old(self).wf(),
        ensures
            final(self)@ == old(self)@.emitted(byte1).emitted_all(le_bytes(byte2)),
            final(self).outer() == old(self).outer(),
            final(self).source() == old(self).source(),
            follows(old(self)@, final(self)@),
            final(self)@.remaining() <= old(self)@.remaining(),
            old(self)@.code().len() <= final(self)@.code().len(),
            old(self)@.has_error ==> final(self)@.has_error,
            old(self).wf() ==> final(self).wf(),
    {
        proof {
            reveal(follows);
        }
        self.emit_u8(byte1);
        self.emit_u32(byte2);
    }

    /// Emits the definition of the global named by the constant `global`
    /// as the value on top of the stack.
    pub fn define_global(&mut self, global: u32)
        requires
            old(self).wf(),
        ensures
            final(self)@ == old(self)@.emitted(opcode::DEFINE_GLOBAL).emitted_all(le_bytes(global)).emitted(0),
            final(self).outer() == old(self).outer(),
            final(self).source() == old(self).source(),
            follows(old(self)@, final(self)@),
            final(self)@.remaining() <= old(self)@.remaining(),
            old(self)@.code().len() <= final(self)@.code().len(),
            old(self)@.has_error ==> final(self)@.has_error,
            old(self).wf() ==> final(self).wf(),
    {
        proof {
            reveal(follows);
        }
        self.emit_u8(opcode::DEFINE_GLOBAL);
        self.emit_u32(global);
        self.emit_u8(0);
    }

    /// Replaces the operand at `index`.
    pub fn set_u32(&mut self, index: usize, byte: u32)
        requires
            index + 4 <= old(self)@.code().len(),
        ensures
            final(self)@ == old(self)@.with_chunk(old(self)@.chunk().patched(index as int, byte)),
            final(self).outer() == old(self).outer(),
            final(self).source() == old(self).source(),
            old(self).wf() ==> final(self).wf(),
            final(self)@.remaining() == old(self)@.remaining(),
            final(self)@.code().len() == old(self)@.code().len(),
            final(self)@.has_error == old(self)@.has_error,
    {
        self.current_compiler.function.chunk_mut().overwrite_u32(index, byte);
    }

    fn emit_return(&mut self)
        requires
            old(self).wf(),
        ensures
            final(self)@ == old(self)@.emitted(opcode::NIL).emitted(opcode::RETURN),
            final(self).outer() == old(self).outer(),
            final(self).source() == old(self).source(),
            follows(old(self)@, final(self)@),
            final(self)@.remaining() <= old(self)@.remaining(),
            old(self)@.code().len() <= final(self)@.code().len(),
            old(self)@.has_error ==> final(self)@.has_error,
            old(self).wf() ==> final(self).wf(),
    {
        proof {
            reveal(follows);
        }
        self.emit_u8(opcode::NIL);
        self.emit_u8(opcode::RETURN);
    }

    /// Puts `value` into the constant pool and returns its slot.
    pub fn make_constant(&mut self, value: Value) -> (slot: Option<u32>)
        ensures
            (final(self)@, slot) == old(self)@.made_constant(value),
            final(self).outer() == old(self).outer(),
            final(self).source() == old(self).source(),
            follows(old(self)@, final(self)@),
            final(self)@.remaining() <= old(self)@.remaining(),
            old(self)@.code().len() <= final(self)@.code().len(),
            old(self)@.has_error ==> final(self)@.has_error,
            old(self).wf() ==> final(self).wf(),
    {
        proof {
            reveal(follows);
        }
        let constant = self.current_compiler.function.chunk_mut().add_constant(value);
        if constant as u64 <= 0xFFFF_FFFF {
            Some(constant as u32)
        } else {
            self.error("Too many constants in one chunk.");
            None
        }
    }

    /// Emits CONSTANT for `value`.
    pub fn emit_constant(&mut self, value: Value)
        requires
            old(self).wf(),
        ensures
            final(self)@ == old(self)@.emitted_constant(value),
            final(self).outer() == old(self).outer(),
            final(self).source() == old(self).source(),
            follows(old(self)@, final(self)@),
            final(self)@.remaining() <= old(self)@.remaining(),
            old(self)@.code().len() <= final(self)@.code().len(),
            old(self)@.has_error ==> final(self)@.has_error,
            old(self).wf() ==> final(self).wf(),
    {
        proof {
            reveal(follows);
        }
        self.emit_u8(opcode::CONSTANT);
        if let Some(num) = self.make_constant(value) {
            self.emit_u32(num);
        }
    }

    /// The text of the previous token.
    pub fn get_prev_token_string(&self) -> (text: String)
        requires
            self.wf(),
        ensures
            text@ == self@.previous_text(),
    {
        String::from_str(self.buf.substring_char(self.previous_text.0, self.previous_text.1))
    }

    /// Interns the text of the previous token and returns the string.
    pub fn str_to_value(&mut self) -> (value: Value)
        requires
            old(self).wf(),
        ensures
            final(self).wf(),
            (final(self)@, value) == old(self)@.interned_previous(),
            final(self).outer() == old(self).outer(),
            final(self).source() == old(self).source(),
            follows(old(self)@, final(self)@),
            final(self)@.remaining() <= old(self)@.remaining(),
            old(self)@.code().len() <= final(self)@.code().len(),
            old(self)@.has_error ==> final(self)@.has_error,
    {
        proof {
            reveal(follows);
        }
        let text = self.buf.substring_char(self.previous_text.0, self.previous_text.1);
        match self.runtime.interner_mut().try_intern(text) {
            Some(id) => Value::String(id),
            None => {
                self.error("Too many strings.");
                Value::Nil
            },
        }
    }

    /// Makes the text of the previous token a constant and returns its
    /// slot.
    pub fn identifier_constant(&mut self) -> (slot: Option<u32>)
        requires
            old(self).wf(),
        ensures
            final(self).wf(),
            (final(self)@, slot) == old(self)@.named_constant(),
            final(self).outer() == old(self).outer(),
            final(self).source() == old(self).source(),
            follows(old(self)@, final(self)@),
            final(self)@.remaining() <= old(self)@.remaining(),
            old(self)@.code().len() <= final(self)@.code().len(),
            old(self)@.has_error ==> final(self)@.has_error,
    {
        proof {
            reveal(follows);
        }
        let value = self.str_to_value();
        self.make_constant(value)
    }

    fn number(&mut self)
        requires
            old(self).wf(),
        ensures
            final(self).wf(),
            final(self)@ == old(self)@.emitted_number(),
            final(self).outer() == old(self).outer(),
            final(self).source() == old(self).source(),
            follows(old(self)@, final(self)@),
            final(self)@.remaining() <= old(self)@.remaining(),
            old(self)@.code().len() <= final(self)@.code().len(),
            old(self)@.has_error ==> final(self)@.has_error,
    {
        proof {
            reveal(follows);
        }
        match self.previous_number {
            Some(bits) => self.emit_constant(Value::Number(bits)),
            None => self.error("not a valid number"),
        }
    }

    pub fn variable(&mut self)
        requires
            old(self).wf(),
        ensures
            final(self).wf(),
            final(self)@ == old(self)@.emitted_variable(),
            final(self).outer() == old(self).outer(),
            final(self).source() == old(self).source(),
            follows(old(self)@, final(self)@),
            final(self)@.remaining() <= old(self)@.remaining(),
            old(self)@.code().len() <= final(self)@.code().len(),
            old(self)@.has_error ==> final(self)@.has_error,
    {
        proof {
            reveal(follows);
        }
        self.named_variable();
    }

    /// Emits a read of the variable that the previous token names.
    #[verifier::spinoff_prover]
    pub fn named_variable(&mut self)
        requires
            old(self).wf(),
        ensures
            final(self).wf(),
            final(self)@ == old(self)@.emitted_variable(),
            final(self).outer() == old(self).outer(),
            final(self).source() == old(self).source(),
            follows(old(self)@, final(self)@),
            final(self)@.remaining() <= old(self)@.remaining(),
            old(self)@.code().len() <= final(self)@.code().len(),
            old(self)@.has_error ==> final(self)@.has_error,
    {
        proof {
            reveal(ParserView::emitted_variable);
        }
        proof {
            reveal(follows);
        }
        let name = self.get_prev_token_string();
        match self.resolve_local(name) {
            Some(slot) => {
                self.emit_u8(opcode::GET_LOCAL);
                self.emit_u32(slot);
            },
            None => {
                if let Some(constant) = self.identifier_constant() {
                    self.emit_u8(opcode::GET_GLOBAL);
                    self.emit_u32(constant);
                }
            },
        }
    }

    /// Compiles one expression.
    #[verifier::spinoff_prover]
    pub fn expression(&mut self)
        requires
            old(self).wf(),
        ensures
            final(self).wf(),
            final(self)@ == old(self)@.expressed(),
            final(self).outer() == old(self).outer(),
            final(self).source() == old(self).source(),
            follows(old(self)@, final(self)@),
            final(self)@.remaining() <= old(self)@.remaining(),
            old(self)@.code().len() <= final(self)@.code().len(),
            old(self)@.has_error ==> final(self)@.has_error,
            old(self)@.current.kind != TokenKind::Eof ==> final(self)@.remaining() < old(self)@.remaining(),
    {
        proof {
            reveal(ParserView::expressed);
        }
        proof {
            reveal(follows);
        }
        self.advance();
        match self.previous.get_value().kind() {
            TokenKind::Number => self.number(),
            TokenKind::True => self.emit_u8(opcode::TRUE),
            TokenKind::False => self.emit_u8(opcode::FALSE),
            TokenKind::String => {
                let value = self.str_to_value();
                self.emit_constant(value)
            },
            TokenKind::Identifier => self.variable(),
            TokenKind::Prev => {},
            _ => {
                self.error("Expect expression");
            },
        }
    }

    /// Opens a scope.
    pub fn begin_scope(&mut self)
        requires
            old(self).wf(),
            old(self)@.frame.scope_depth < i8::MAX,
        ensures
            final(self).wf(),
            final(self)@ == old(self)@.scope_begun(),
            final(self)@.remaining() == old(self)@.remaining(),
            final(self).outer() == old(self).outer(),
            final(self).source() == old(self).source(),
    {
        self.current_compiler.begin_scope()
    }

    pub fn get_scope(&self) -> (depth: i8)
        ensures
            depth == self@.frame.scope_depth,
    {
        self.current_compiler.scope_depth()
    }

    /// Slot of the local named `name` that was declared last.
    pub fn resolve_local(&mut self, name: String) -> (slot: Option<u32>)
        requires
            old(self).wf(),
        ensures
            slot == old(self)@.frame.slot_of(name@),
            final(self)@ == old(self)@,
            final(self).wf(),
            final(self).outer() == old(self).outer(),
            final(self).source() == old(self).source(),
    {
        self.current_compiler.resolve_local(name)
    }

    /// Closes the open scope.
    #[verifier::spinoff_prover]
    pub fn end_scope(&mut self)
        requires
            old(self).wf(),
            old(self)@.frame.scope_depth > 0,
        ensures
            final(self).wf(),
            final(self)@ == old(self)@.scope_ended(),
            final(self).outer() == old(self).outer(),
            final(self).source() == old(self).source(),
            final(self)@.remaining() == old(self)@.remaining(),
            old(self)@.code().is_prefix_of(final(self)@.code()),
    {
        let ghost before = self@;
        let ghost depth = (before.frame.scope_depth - 1) as i8;
        self.current_compiler.scope_depth -= 1;
        let ghost closed = self@;
        let ghost mut popped: nat = 0;
        assert(closed.emitted_all(Seq::new(0, |i: int| opcode::POP_LOCAL)) =~= closed) by {
            let none = Seq::new(0, |i: int| opcode::POP_LOCAL);
            assert(none =~= Seq::<u8>::empty());
            assert(closed.chunk().code + none =~= closed.chunk().code);
            assert(closed.chunk().lines + Seq::new(none.len(), |i: int| closed.previous.line) =~= closed.chunk().lines);
        }
        while self.current_compiler.locals.len() > 0 && self.current_compiler.locals[self.current_compiler.locals.len()
            - 1].depth > self.current_compiler.scope_depth
            invariant
                self.scanning(),
                self.buf == old(self).buf,
                self.current_compiler.outer() == old(self).current_compiler.outer(),
                before == old(self)@,
                before.valid(),
                depth == before.frame.scope_depth - 1,
                self@.frame.scope_depth == depth,
                popped + self@.frame.locals.len() == before.frame.locals.len(),
                self@.frame.locals == before.frame.locals.take(self@.frame.locals.len() as int),
                in_scope(before.frame.locals, depth) == in_scope(self@.frame.locals, depth),
                self@ == (ParserView {
                    frame: CompilerFrame { scope_depth: depth, locals: self@.frame.locals, ..before.frame },
                    ..before
                }).emitted_all(Seq::new(popped, |i: int| opcode::POP_LOCAL)),
            decreases self@.frame.locals.len(),
        {
            let ghost locals = self@.frame.locals;
            let _ = self.current_compiler.locals.pop();
            proof {
                assert(self@.frame.locals =~= locals.drop_last());
                assert(locals.drop_last() =~= before.frame.locals.take(locals.len() - 1));
            }
            self.write_u8(opcode::POP_LOCAL);
            proof {
                let base = ParserView {
                    frame: CompilerFrame { scope_depth: depth, locals: self@.frame.locals, ..before.frame },
                    ..before
                };
                let more = Seq::new(popped + 1, |i: int| opcode::POP_LOCAL);
                let fewer = Seq::new(popped, |i: int| opcode::POP_LOCAL);
                assert(more =~= fewer.push(opcode::POP_LOCAL));
                assert(base.chunk().extended(more, before.previous.line).code =~= base.chunk().extended(
                    fewer,
                    before.previous.line,
                ).written(opcode::POP_LOCAL, before.previous.line).code);
                assert(base.chunk().extended(more, before.previous.line).lines =~= base.chunk().extended(
                    fewer,
                    before.previous.line,
                ).written(opcode::POP_LOCAL, before.previous.line).lines);
                popped = popped + 1;
            }
        }
        proof {
            let kept = self@.frame.locals;
            assert(in_scope(kept, depth) == kept);
            assert forall|i: int| 0 <= i < kept.len() implies 0 <= (#[trigger] kept[i]).depth <= depth by {
                assert(kept[i] == before.frame.locals[i]);
                assert(kept[kept.len() - 1] == before.frame.locals[kept.len() - 1]);
            }
            assert forall|i: int, j: int| 0 <= i <= j < kept.len() implies (#[trigger] kept[i]).depth <= (#[trigger] kept[j]).depth by {
                assert(kept[i] == before.frame.locals[i]);
                assert(kept[j] == before.frame.locals[j]);
            }
        }
    }

    /// Declares a local named `name` in the open scope. Says whether there
    /// was a slot left for it.
    pub fn add_local(&mut self, name: String) -> (added: bool)
        requires
            old(self).wf(),
        ensures
            final(self).wf(),
            added == (old(self)@.frame.locals.len() < u32::MAX),
            final(self)@ == old(self)@.with_local(name@),
            final(self).outer() == old(self).outer(),
            final(self).source() == old(self).source(),
            follows(old(self)@, final(self)@),
            final(self)@.remaining() <= old(self)@.remaining(),
            old(self)@.code().len() <= final(self)@.code().len(),
            old(self)@.has_error ==> final(self)@.has_error,
    {
        proof {
            reveal(follows);
        }
        if self.current_compiler.locals.len() as u64 >= 0xFFFF_FFFF {
            self.error("Too many local variables in function.");
            return false;
        }
        self.current_compiler.add_local(name);
        true
    }

    /// Emits a jump with opcode `opcode` whose operand is still to be
    /// patched, and returns the index of the operand.
    pub fn emit_jump(&mut self, opcode: u8) -> (index: usize)
        requires
            old(self).wf(),
        ensures
            final(self)@ == old(self)@.emitted_jump(opcode),
            index == old(self)@.code().len() + 1,
            index + 4 == final(self)@.code().len(),
            final(self).outer() == old(self).outer(),
            final(self).source() == old(self).source(),
            follows(old(self)@, final(self)@),
            final(self)@.remaining() <= old(self)@.remaining(),
            old(self)@.code().len() <= final(self)@.code().len(),
            old(self)@.has_error ==> final(self)@.has_error,
            old(self).wf() ==> final(self).wf(),
    {
        proof {
            reveal(follows);
        }
        self.emit_u8(opcode);
        self.emit_u32(0);
        self.current_chunk().len() - 4
    }

    /// Patches the operand at `patch_index` so that its jump leads to the
    /// end of the code.
    pub fn patch_jump(&mut self, patch_index: usize)
        requires
            patch_index + 4 <= old(self)@.code().len(),
        ensures
            final(self)@ == old(self)@.patched_jump(patch_index as int),
            final(self).outer() == old(self).outer(),
            final(self).source() == old(self).source(),
            old(self).wf() ==> final(self).wf(),
            final(self)@.remaining() == old(self)@.remaining(),
            final(self)@.code().len() == old(self)@.code().len(),
            old(self)@.has_error ==> final(self)@.has_error,
            patched_follows(old(self)@, final(self)@, patch_index as int),
    {
        proof {
            lemma_patched(self@.chunk(), patch_index as int, 0);
            if self@.code().len() - patch_index - 4 <= u32::MAX {
                lemma_patched(self@.chunk(), patch_index as int, (self@.code().len() - patch_index - 4) as u32);
            }
        }
        let jump = self.current_chunk().len() - patch_index - 4;
        let jump: u32 = if jump as u64 <= 0xFFFF_FFFF {
            jump as u32
        } else {
            self.error("Too many jumps in one chunk.");
            0
        };
        self.set_u32(patch_index, jump);
    }

    /// Emits a LOOP that leads back to `loop_start`.
    pub fn emit_loop(&mut self, loop_start: usize)
        requires
            old(self).wf(),
            loop_start <= old(self)@.code().len(),
        ensures
            final(self)@ == old(self)@.emitted_loop(loop_start as int),
            final(self).outer() == old(self).outer(),
            final(self).source() == old(self).source(),
            follows(old(self)@, final(self)@),
            final(self)@.remaining() <= old(self)@.remaining(),
            old(self)@.code().len() <= final(self)@.code().len(),
            old(self)@.has_error ==> final(self)@.has_error,
            old(self).wf() ==> final(self).wf(),
    {
        proof {
            reveal(follows);
        }
        let distance = self.current_chunk().len() - loop_start;
        let offset: u32 = if distance as u64 <= 0xFFFF_FFFF - 4 {
            (distance + 4) as u32
        } else {
            self.error("Too many jumps in one chunk.");
            0
        };
        self.emit_u8(opcode::LOOP);
        self.emit_u32(offset);
    }

    /// Declares the local `name` and emits code that moves the value on
    /// top of the stack into it.
    pub fn define_local_variable(&mut self, name: &str)
        requires
            old(self).wf(),
        ensures
            final(self).wf(),
            final(self)@ == defined_local(old(self)@, name@),
            final(self).outer() == old(self).outer(),
            final(self).source() == old(self).source(),
            follows(old(self)@, final(self)@),
            final(self)@.remaining() <= old(self)@.remaining(),
            old(self)@.code().len() <= final(self)@.code().len(),
            old(self)@.has_error ==> final(self)@.has_error,
    {
        proof {
            reveal(follows);
        }
        let _ = self.add_local(String::from_str(name));
        self.emit_u8(opcode::DEFINE_LOCAL);
        self.emit_u8(0);
        self.emit_u8(opcode::POP);
    }

    /// Starts the compilation of a function of kind `fun_kind`, named by
    /// the previous token, inside the function that is being compiled.
    pub fn enter_compiler(&mut self, fun_kind: FunctionType)
        requires
            old(self).wf(),
        ensures
            final(self).wf(),
            final(self)@ == old(self)@.function_entered(fun_kind),
            final(self).outer() is Some,
            final(self).outer()->0.frame() == old(self)@.frame,
            final(self).outer()->0.outer() == old(self).outer(),
            final(self).source() == old(self).source(),
    {
        let fn_name = self.get_prev_token_string();
        let mut compiler = Compiler::init(fun_kind);
        std::mem::swap(&mut self.current_compiler, &mut compiler);
        self.current_compiler.set_enclosing(compiler);
        self.current_compiler.function.set_name(fn_name);
    }

    /// Ends the compilation of the function: emits its final return and
    /// goes back to the function that encloses it. Hands out the function
    /// unless an error was found.
    pub fn end_compiler(&mut self) -> (function: Option<Function>)
        requires
            old(self).wf(),
        ensures
            final(self).wf(),
            final(self).source() == old(self).source(),
            function is Some == (old(self).outer() is Some && !old(self)@.has_error),
            function is Some ==> function->0@ == old(self)@.emitted(opcode::NIL).emitted(
                opcode::RETURN,
            ).frame.function,
            old(self).outer() is Some ==> final(self)@ == (ParserView {
                frame: old(self).outer()->0.frame(),
                ..old(self)@
            }) && final(self).outer() == old(self).outer()->0.outer(),
            old(self).outer() is None ==> final(self)@ == old(self)@.emitted(opcode::NIL).emitted(opcode::RETURN)
                && final(self).outer() is None,
    {
        self.emit_return();
        proof {
            assert(self.current_compiler.all_valid());
            if self.current_compiler.enclosing is Some {
                assert(self.current_compiler.enclosing->0.all_valid());
            }
        }
        let enclosing = self.current_compiler.enclosing.take();
        let fun = match enclosing {
            Some(mut enclosing) => {
                std::mem::swap(&mut self.current_compiler, &mut enclosing);
                let compiler = *enclosing;
                Some(compiler.function)
            },
            None => None,
        };
        if self.has_error {
            None
        } else {
            fun
        }
    }

    /// Puts `fun` into the function table and returns its identity.
    pub fn add_closure(&mut self, fun: Function) -> (id: ClosureId)
        requires
            old(self).wf(),
            old(self)@.runtime.closures.len() < 0x1_0000_0000,
            well_formed(fun@.chunk.code),
        ensures
            final(self).wf(),
            id == old(self)@.runtime.closures.len(),
            final(self)@ == (ParserView {
                runtime: RuntimeView {
                    closures: old(self)@.runtime.closures.push(
                        ClosureView {
                            function: fun@,
                            upvalues: Seq::new(fun@.upvalues_count as nat, |i: int| Value::Nil),
                        },
                    ),
                    ..old(self)@.runtime
                },
                ..old(self)@
            }),
            follows(old(self)@, final(self)@),
            final(self)@.remaining() <= old(self)@.remaining(),
            old(self)@.code().len() <= final(self)@.code().len(),
            old(self)@.has_error ==> final(self)@.has_error,
            final(self).outer() == old(self).outer(),
            final(self).source() == old(self).source(),
    {
        proof {
            reveal(follows);
        }
        self.runtime.add_closure(fun)
    }

    /// Whether one more function can be put into the function table.
    pub fn has_room(&self) -> (room: bool)
        ensures
            room == (self@.runtime.closures.len() < 0x1_0000_0000),
    {
        self.runtime.has_room()
    }

    /// After an error: skips tokens up to the next one that can start a
    /// statement, from where errors are reported again.
    #[verifier::spinoff_prover]
    fn synchronize(&mut self)
        requires
            old(self).wf(),
        ensures
            final(self).wf(),
            follows(old(self)@, final(self)@),
            final(self)@.remaining() <= old(self)@.remaining(),
            old(self)@.code().len() <= final(self)@.code().len(),
            old(self)@.has_error ==> final(self)@.has_error,
            final(self).outer() == old(self).outer(),
            final(self).source() == old(self).source(),
            final(self)@ == old(self)@.synchronized(),
            starts_statement(final(self)@.current.kind),
            final(self)@.frame == old(self)@.frame,
            final(self)@.runtime == old(self)@.runtime,
            !starts_statement(old(self)@.current.kind) ==> final(self)@.remaining() < old(self)@.remaining(),
    {
        proof {
            reveal(ParserView::resynchronized);
        }
        proof {
            reveal(follows);
        }
        self.panic_mode = false;
        let ghost start = self@;
        let ghost mut moved = false;
        proof {
            reveal(follows);
        }
        loop
            invariant
                self.wf(),
                follows(start, self@),
                follows(old(self)@, start),
                self.outer() == old(self).outer(),
                self.source() == old(self).source(),
                self@.frame == old(self)@.frame,
                self@.runtime == old(self)@.runtime,
                start.current == old(self)@.current,
                start.remaining() == old(self)@.remaining(),
                self@.remaining() <= start.remaining(),
                moved ==> self@.remaining() < start.remaining(),
                !moved ==> self@.current == start.current,
                start == (ParserView { panic_mode: false, ..old(self)@ }),
                start.resynchronized() == self@.resynchronized(),
            ensures
                starts_statement(self@.current.kind),
            decreases self@.remaining(),
        {
            proof {
                reveal(ParserView::resynchronized);
            }
            match self.current.get_value().kind() {
                TokenKind::Decl
                | TokenKind::DeclShort
                | TokenKind::Fun
                | TokenKind::Call
                | TokenKind::Print
                | TokenKind::If
                | TokenKind::Fu
                | TokenKind::Loop
                | TokenKind::For
                | TokenKind::Break
                | TokenKind::AssignFrom
                | TokenKind::Plus
                | TokenKind::Minus
                | TokenKind::Star
                | TokenKind::Invert
                | TokenKind::Eof => {
                    break;
                },
                _ => {
                    self.advance();
                    proof {
                        moved = true;
                    }
                },
            }
        }
    }

    /// Compiles the source. Returns the identity of the script in the
    /// function table, or none where an error was found.
    #[verifier::spinoff_prover]
    pub fn compile(&mut self) -> (script: Option<ClosureId>)
        requires
            old(self).wf(),
        ensures
            final(self).wf(),
            final(self).source() == old(self).source(),
            final(self)@.chars == old(self)@.chars,
            old(self).outer() is Some ==> final(self)@.frame == old(self).outer()->0.frame() && final(self)@
                == old(self)@.source_compiled().function_registered(final(self)@.frame),
            script is Some <==> !final(self)@.has_error && old(self).outer() is Some,
            final(self)@.has_error ==> final(self)@.diagnostics.len() > 0,
            script is Some ==> final(self)@.runtime.has_closure(script->0) && script->0
                == final(self)@.runtime.closures.len() - 1,
            old(self)@.runtime.closures.is_prefix_of(final(self)@.runtime.closures),
            forall|i: int|
                old(self)@.runtime.closures.len() <= i < final(self)@.runtime.closures.len() ==> well_formed(
                    (#[trigger] final(self)@.runtime.closures[i]).function.chunk.code,
                ),
            final(self)@.runtime.frames == old(self)@.runtime.frames,
    {
        proof {
            reveal(ParserView::program_compiled);
            reveal(ParserView::function_registered);
        }
        self.has_error = false;
        self.panic_mode = false;
        let ghost start = self@;
        self.advance();
        let ghost first = self@;
        loop
            invariant_except_break
                first.program_compiled() == self@.program_compiled(),
            invariant
                self.wf(),
                follows(start, self@),
                self.source() == old(self).source(),
                self.outer() == old(self).outer(),
            ensures
                self.wf(),
                follows(start, self@),
                self.source() == old(self).source(),
                self.outer() == old(self).outer(),
                self@ == first.program_compiled(),
            decreases self@.remaining(),
        {
            proof {
                reveal(ParserView::program_compiled);
            }
            if self.is_match(Token::Eof) {
                break;
            }
            self.declaration();
        }
        self.consume(Token::Eof, "Expect end of expression");
        proof {
            lemma_follows(start, self@);
        }
        let function = self.end_compiler();
        if let Some(function) = function {
            if !function.chunk().is_well_formed() {
                self.error("Malformed code.");
                return None;
            }
            if !self.has_room() {
                self.error("Too many functions.");
                return None;
            }
            let ghost ended = self@;
            let id = self.add_closure(function);
            proof {
                lemma_follows(ended, self@);
                assert forall|i: int|
                    old(self)@.runtime.closures.len() <= i < self@.runtime.closures.len() implies well_formed(
                    (#[trigger] self@.runtime.closures[i]).function.chunk.code,
                ) by {
                    if i < ended.runtime.closures.len() {
                        assert(self@.runtime.closures[i] == ended.runtime.closures[i]);
                    }
                }
            }
            return Some(id);
        }
        None
    }

    /// Compiles one declaration or statement, and after an error skips to
    /// where the next statement can start.
    #[verifier::spinoff_prover]
    pub fn declaration(&mut self)
        requires
            old(self).wf(),
        ensures
            final(self).wf(),
            final(self)@ == old(self)@.declaration_compiled(),
            follows(old(self)@, final(self)@),
            final(self)@.remaining() <= old(self)@.remaining(),
            old(self)@.code().len() <= final(self)@.code().len(),
            old(self)@.has_error ==> final(self)@.has_error,
            final(self).outer() == old(self).outer(),
            final(self).source() == old(self).source(),
            old(self)@.current.kind != TokenKind::Eof ==> final(self)@.remaining() < old(self)@.remaining(),
        decreases old(self)@.remaining(), 3int,
    {
        proof {
            reveal(ParserView::declaration_compiled);
        }
        if self.is_match(Token::Decl) {
            self.normal_declaration();
        } else if self.is_match(Token::DeclShort) {
            self.short_declaration()
        } else {
            self.statement();
        }
        if self.has_error {
            self.synchronize();
        }
    }

    fn short_declaration(&mut self)
        requires
            old(self).wf(),
        ensures
            final(self).wf(),
            final(self)@ == old(self)@.advanced().expressed(),
            follows(old(self)@, final(self)@),
            final(self)@.remaining() <= old(self)@.remaining(),
            old(self)@.code().len() <= final(self)@.code().len(),
            old(self)@.has_error ==> final(self)@.has_error,
            final(self).outer() == old(self).outer(),
            final(self).source() == old(self).source(),
    {
        short_declaration(self);
    }

    fn normal_declaration(&mut self)
        requires
            old(self).wf(),
        ensures
            final(self).wf(),
            final(self)@ == old(self)@.values_declared(),
            follows(old(self)@, final(self)@),
            final(self)@.remaining() <= old(self)@.remaining(),
            old(self)@.code().len() <= final(self)@.code().len(),
            old(self)@.has_error ==> final(self)@.has_error,
            final(self).outer() == old(self).outer(),
            final(self).source() == old(self).source(),
    {
        normal_declaration(self)
    }

    fn fun_statement(&mut self)
        requires
            old(self).wf(),
            old(self)@.current.kind == TokenKind::Fun,
        ensures
            final(self).wf(),
            final(self)@ == old(self)@.function_defined(),
            follows(old(self)@, final(self)@),
            final(self)@.remaining() <= old(self)@.remaining(),
            old(self)@.code().len() <= final(self)@.code().len(),
            old(self)@.has_error ==> final(self)@.has_error,
            final(self).outer() == old(self).outer(),
            final(self).source() == old(self).source(),
            final(self)@.remaining() < old(self)@.remaining(),
        decreases old(self)@.remaining(), 1int,
    {
        fun_statement(self)
    }

    pub fn call_statement(&mut self)
        requires
            old(self).wf(),
        ensures
            final(self).wf(),
            final(self)@ == old(self)@.call_compiled(),
            follows(old(self)@, final(self)@),
            final(self)@.remaining() <= old(self)@.remaining(),
            old(self)@.code().len() <= final(self)@.code().len(),
            old(self)@.has_error ==> final(self)@.has_error,
            final(self).outer() == old(self).outer(),
            final(self).source() == old(self).source(),
            old(self)@.current.kind != TokenKind::Eof ==> final(self)@.remaining() < old(self)@.remaining(),
    {
        call_statement(self)
    }

    pub fn return_statement(&mut self)
        requires
            old(self).wf(),
        ensures
            final(self).wf(),
            final(self)@ == old(self)@.return_compiled(),
            follows(old(self)@, final(self)@),
            final(self)@.remaining() <= old(self)@.remaining(),
            old(self)@.code().len() <= final(self)@.code().len(),
            old(self)@.has_error ==> final(self)@.has_error,
            final(self).outer() == old(self).outer(),
            final(self).source() == old(self).source(),
            old(self)@.frame.fun_kind == FunctionType::Script ==> final(self)@.has_error && final(self)@.current
                == old(self)@.current,
            old(self)@.frame.fun_kind != FunctionType::Script && old(self)@.current.kind != TokenKind::Eof
                ==> final(self)@.remaining() < old(self)@.remaining(),
    {
        return_statement(self)
    }

    /// Compiles the statement that starts with the current token.
    #[verifier::spinoff_prover]
    pub fn statement(&mut self)
        requires
            old(self).wf(),
        ensures
            final(self).wf(),
            final(self)@ == old(self)@.statement_compiled(),
            follows(old(self)@, final(self)@),
            final(self)@.remaining() <= old(self)@.remaining(),
            old(self)@.code().len() <= final(self)@.code().len(),
            old(self)@.has_error ==> final(self)@.has_error,
            final(self).outer() == old(self).outer(),
            final(self).source() == old(self).source(),
            old(self)@.current.kind != TokenKind::Eof ==> final(self)@.remaining() < old(self)@.remaining() || (
            final(self)@.has_error && !starts_statement(final(self)@.current.kind) && final(self)@.remaining()
                == old(self)@.remaining()),
        decreases old(self)@.remaining(), 2int,
    {
        proof {
            reveal(ParserView::statement_compiled);
        }
        let current = self.current.get_value().duplicate();
        match current.kind() {
            TokenKind::Plus | TokenKind::Minus | TokenKind::Star => binary_statement(self, &current),
            TokenKind::Invert => unary_statement(self, &current),
            TokenKind::Print => print_statement(self),
            TokenKind::AssignFrom => assign_statement(self),
            TokenKind::NameIs => name_is_statement(self),
            TokenKind::If => if_statement(self),
            TokenKind::Fu => {
                self.advance();
                self.expression();
                if self.is_match_literal() {
                    boolean_algebra_statement(self)
                }
            },
            TokenKind::Loop => {
                for_while_statement(self);
            },
            TokenKind::For => for_statement(self),
            TokenKind::Break => break_statement(self),
            TokenKind::Fun => self.fun_statement(),
            TokenKind::Call => self.call_statement(),
            TokenKind::Return => self.return_statement(),
            _ => expression_statement(self),
        }
    }

    /// The double that the previous token stands for, where it is a number
    /// that stands for one.
    pub fn previous_number(&self) -> (number: Option<u64>)
        ensures
            number == self@.previous.number,
    {
        self.previous_number
    }

    /// Counts one more parameter of the function that is being compiled.
    pub fn add_parameter(&mut self) -> (added: bool)
        requires
            old(self).wf(),
        ensures
            final(self).wf(),
            added == (old(self)@.frame.function.arity < usize::MAX),
            final(self)@ == old(self)@.parameter_added(),
            final(self).outer() == old(self).outer(),
            final(self).source() == old(self).source(),
            follows(old(self)@, final(self)@),
            final(self)@.remaining() <= old(self)@.remaining(),
            old(self)@.code().len() <= final(self)@.code().len(),
            old(self)@.has_error ==> final(self)@.has_error,
    {
        proof {
            reveal(follows);
        }
        if self.current_compiler.function.arity() == usize::MAX {
            self.error("Too many parameters.");
            return false;
        }
        self.current_compiler.function.add_arity(1);
        true
    }

    /// Gives up the parser and hands back the errors that were reported.
    pub fn into_diagnostics(self) -> (diagnostics: Vec<Diagnostic>)
        ensures
            diagnostics@.len() == self@.diagnostics.len(),
            forall|i: int| 0 <= i < diagnostics@.len() ==> (#[trigger] diagnostics@[i])@ == self@.diagnostics[i],
    {
        self.diagnostics
    }

    /// Gives up the parser and hands back its runtime.
    pub fn into_runtime(self) -> (runtime: Runtime)
        ensures
            runtime@ == self@.runtime,
    {
        self.runtime
    }
}

} // verus!
