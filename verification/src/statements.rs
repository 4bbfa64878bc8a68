//! The statements of the language: each function compiles the statement
//! that starts at the current token of the parser.

use vstd::prelude::*;
use vstd::string::StringExecFns;
use crate::chunk::{le_bytes, le_value, lemma_appended_operand};
use crate::compiler::{FunctionType, Parser};
use crate::opcode;
use crate::parsing::{
    break_shape, conditional_shape, follows, kind_among, lemma_emitted_more, lemma_follows, lemma_follows_code, lemma_follows_itself, lemma_follows_on,
    lemma_patch_follows, lemma_scope_restores, loop_shape, ParserView,
};
use crate::token::{Token, TokenKind};
use crate::value::{number_to_count, Value, NUMBER_ONE, NUMBER_ZERO};

verus! {

broadcast use {lemma_follows_on, lemma_follows_itself};

/// `變 e`: the expression, then INVERT.
pub fn unary_statement(parser: &mut Parser, token: &Token)
    requires
        old(parser).wf(),
    ensures
        final(parser).wf(),
        final(parser)@ == if token.kind() == TokenKind::Invert {
            old(parser)@.advanced().expressed().emitted(opcode::INVERT)
        } else {
            old(parser)@.advanced().expressed()
        },
        follows(old(parser)@, final(parser)@),
        final(parser)@.remaining() <= old(parser)@.remaining(),
        old(parser)@.code().len() <= final(parser)@.code().len(),
        old(parser)@.has_error ==> final(parser)@.has_error,
        final(parser).outer() == old(parser).outer(),
        final(parser).source() == old(parser).source(),
        old(parser)@.current.kind != TokenKind::Eof ==> final(parser)@.remaining() < old(parser)@.remaining(),
{
    parser.advance();
    parser.expression();
    match token {
        Token::Invert => parser.emit_u8(opcode::INVERT),
        _ => {},
    }
}

/// `書之`: PRINT.
pub fn print_statement(parser: &mut Parser)
    requires
        old(parser).wf(),
    ensures
        final(parser).wf(),
        final(parser)@ == old(parser)@.advanced().emitted(opcode::PRINT),
        follows(old(parser)@, final(parser)@),
        final(parser)@.remaining() <= old(parser)@.remaining(),
        old(parser)@.code().len() <= final(parser)@.code().len(),
        old(parser)@.has_error ==> final(parser)@.has_error,
        final(parser).outer() == old(parser).outer(),
        final(parser).source() == old(parser).source(),
        old(parser)@.current.kind != TokenKind::Eof ==> final(parser)@.remaining() < old(parser)@.remaining(),
{
    parser.advance();
    parser.emit_u8(opcode::PRINT);
}

/// An expression, with the comparison that follows it if one does.
#[verifier::spinoff_prover]
pub fn expression_statement(parser: &mut Parser)
    requires
        old(parser).wf(),
    ensures
        final(parser).wf(),
        final(parser)@ == old(parser)@.expression_compiled(),
        follows(old(parser)@, final(parser)@),
        final(parser)@.remaining() <= old(parser)@.remaining(),
        old(parser)@.code().len() <= final(parser)@.code().len(),
        old(parser)@.has_error ==> final(parser)@.has_error,
        final(parser).outer() == old(parser).outer(),
        final(parser).source() == old(parser).source(),
        old(parser)@.current.kind != TokenKind::Eof ==> final(parser)@.remaining() < old(parser)@.remaining(),
{
    proof {
        reveal(ParserView::expression_compiled);
    }
    parser.expression();
    match parser.current().get_value().kind() {
        TokenKind::BangEqual
        | TokenKind::EqualEqual
        | TokenKind::BangGreater
        | TokenKind::BangLess
        | TokenKind::Less
        | TokenKind::Greater => binary_if_expression(parser),
        _ => {},
    }
}

/// A comparison behind an expression: the other operand, the comparing
/// instruction, and INVERT for a negated comparison.
#[verifier::spinoff_prover]
pub fn binary_if_expression(parser: &mut Parser)
    requires
        old(parser).wf(),
    ensures
        final(parser).wf(),
        final(parser)@ == old(parser)@.compared(),
        follows(old(parser)@, final(parser)@),
        final(parser)@.remaining() <= old(parser)@.remaining(),
        old(parser)@.code().len() <= final(parser)@.code().len(),
        old(parser)@.has_error ==> final(parser)@.has_error,
        final(parser).outer() == old(parser).outer(),
        final(parser).source() == old(parser).source(),
{
    proof {
        reveal(ParserView::compared);
    }
    let kind = parser.current().get_value().kind();
    let op_code = match kind {
        TokenKind::BangEqual | TokenKind::EqualEqual => opcode::EQUAL_EQUAL,
        TokenKind::Greater | TokenKind::BangGreater => opcode::GREATER,
        TokenKind::Less | TokenKind::BangLess => opcode::LESS,
        _ => {
            parser.error_at_current("unknown if binary operator.");
            return ;
        },
    };
    parser.advance();
    parser.expression();
    parser.emit_u8(op_code);
    match kind {
        TokenKind::BangEqual | TokenKind::BangGreater | TokenKind::BangLess => {
            parser.emit_u8(opcode::INVERT);
        },
        _ => {},
    };
}

/// `加 a 於 b`, `減 a 以 b` and the like: the two operands, the arithmetic
/// instruction, and the byte of the preposition.
#[verifier::rlimit(40)]
#[verifier::spinoff_prover]
pub fn binary_statement(parser: &mut Parser, token: &Token)
    requires
        old(parser).wf(),
    ensures
        final(parser).wf(),
        final(parser)@ == old(parser)@.arithmetic_compiled(token.kind()),
        follows(old(parser)@, final(parser)@),
        final(parser)@.remaining() <= old(parser)@.remaining(),
        old(parser)@.code().len() <= final(parser)@.code().len(),
        old(parser)@.has_error ==> final(parser)@.has_error,
        final(parser).outer() == old(parser).outer(),
        final(parser).source() == old(parser).source(),
        old(parser)@.current.kind != TokenKind::Eof ==> final(parser)@.remaining() < old(parser)@.remaining(),
{
    proof {
        reveal(ParserView::arithmetic_compiled);
    }
    parser.advance();
    parser.expression();
    let mut op_code: Option<u8> = None;
    if parser.is_match(Token::PrepositionLeft) {
        op_code = Some(opcode::PREPOSITION_LEFT)
    } else if parser.is_match(Token::PrepositionRight) {
        op_code = Some(opcode::PREPOSITION_RIGHT);
    };
    parser.expression();
    match op_code {
        None => {
            parser.error("invalid preposition, you should use '於' or '以'.");
        },
        Some(marker) => {
            match token {
                Token::Plus => parser.emit_u8(opcode::ADD),
                Token::Minus => parser.emit_u8(opcode::SUBTRACT),
                Token::Star => parser.emit_u8(opcode::MULTIPLY),
                _ => {},
            }
            parser.emit_u8(marker);
        },
    }
}

/// `有 <type> e`: the short declaration leaves the value of `e` on the
/// stack.
pub fn short_declaration(parser: &mut Parser)
    requires
        old(parser).wf(),
    ensures
        final(parser).wf(),
        final(parser)@ == old(parser)@.advanced().expressed(),
        follows(old(parser)@, final(parser)@),
        final(parser)@.remaining() <= old(parser)@.remaining(),
        old(parser)@.code().len() <= final(parser)@.code().len(),
        old(parser)@.has_error ==> final(parser)@.has_error,
        final(parser).outer() == old(parser).outer(),
        final(parser).source() == old(parser).source(),
{
    parser.advance();
    parser.expression();
}

/// `吾有 <number> <type> 曰 e1 曰 e2 .. 名之曰 n1 名之曰 n2 ..`: as many
/// expressions as the number says, then a definition for each name, with
/// the peek offsets from one less than the number down to 0, then as many
/// POP as there were expressions. Without names the values stay on the
/// stack.
#[verifier::spinoff_prover]
pub fn normal_declaration(parser: &mut Parser)
    requires
        old(parser).wf(),
    ensures
        final(parser).wf(),
        final(parser)@ == old(parser)@.values_declared(),
        follows(old(parser)@, final(parser)@),
        final(parser)@.remaining() <= old(parser)@.remaining(),
        old(parser)@.code().len() <= final(parser)@.code().len(),
        old(parser)@.has_error ==> final(parser)@.has_error,
        final(parser).outer() == old(parser).outer(),
        final(parser).source() == old(parser).source(),
{
    proof {
        reveal(ParserView::values_declared);
    }
    parser.advance();
    let num: Option<u8> = declared_count(parser);
    parser.advance();
    match num {
        Some(num) => {
            declared_values(parser, num);
            let ghost values = parser@;
            let first: u8 = num.wrapping_sub(1);
            let has_define_statement = parser.check(Token::NameIs);
            let offset = declared_names(parser, first);
            if has_define_statement {
                if offset != 0 {
                    parser.error("expect named all variable you declared.")
                } else {
                    declared_pops(parser, num);
                }
            }
        },
        None => {
            parser.error("expect a number in declaration.");
        },
    }
}

/// The values of a declaration: `count` times `曰` and an expression.
#[verifier::spinoff_prover]
fn declared_values(parser: &mut Parser, count: u8)
    requires
        old(parser).wf(),
    ensures
        final(parser).wf(),
        final(parser)@ == old(parser)@.values_compiled(count as nat),
        follows(old(parser)@, final(parser)@),
        final(parser)@.remaining() <= old(parser)@.remaining(),
        old(parser)@.code().len() <= final(parser)@.code().len(),
        old(parser)@.has_error ==> final(parser)@.has_error,
        final(parser).outer() == old(parser).outer(),
        final(parser).source() == old(parser).source(),
{
    proof {
        reveal(ParserView::values_compiled);
    }
    let mut i: u8 = 0;
    while i < count
        invariant
            i <= count,
            parser.wf(),
            parser@ == old(parser)@.values_compiled(i as nat),
            follows(old(parser)@, parser@),
            parser@.remaining() <= old(parser)@.remaining(),
            old(parser)@.code().len() <= parser@.code().len(),
            old(parser)@.has_error ==> parser@.has_error,
            parser.outer() == old(parser).outer(),
            parser.source() == old(parser).source(),
        decreases count - i,
    {
        proof {
            reveal(ParserView::values_compiled);
        }
        parser.consume(Token::Is, "expect '曰' in declaration.");
        parser.expression();
        i += 1;
    }
}

/// The names of a declaration, the first with the peek offset `first`.
/// Returns the offset that was reached.
#[verifier::spinoff_prover]
fn declared_names(parser: &mut Parser, first: u8) -> (offset: u8)
    requires
        old(parser).wf(),
    ensures
        final(parser).wf(),
        (final(parser)@, offset) == old(parser)@.names_compiled(first),
        follows(old(parser)@, final(parser)@),
        final(parser)@.remaining() <= old(parser)@.remaining(),
        old(parser)@.code().len() <= final(parser)@.code().len(),
        old(parser)@.has_error ==> final(parser)@.has_error,
        final(parser).outer() == old(parser).outer(),
        final(parser).source() == old(parser).source(),
{
    proof {
        reveal(ParserView::names_compiled);
    }
    let mut offset: u8 = first;
    let mut done = false;
    while !done
        invariant
            parser.wf(),
            !done ==> old(parser)@.names_compiled(first) == parser@.names_compiled(offset),
            done ==> old(parser)@.names_compiled(first) == (parser@, offset),
            follows(old(parser)@, parser@),
            parser@.remaining() <= old(parser)@.remaining(),
            old(parser)@.code().len() <= parser@.code().len(),
            old(parser)@.has_error ==> parser@.has_error,
            parser.outer() == old(parser).outer(),
            parser.source() == old(parser).source(),
        decreases offset + if done { 0int } else { 1int },
    {
        proof {
            reveal(ParserView::names_compiled);
        }
        if !parser.is_match(Token::NameIs) {
            done = true;
        } else {
            match parse_variable(parser, "Expect variable name.") {
                Some(global) => {
                    parser.emit_u8(opcode::DEFINE_GLOBAL);
                    parser.emit_u32(global);
                    parser.emit_u8(offset);
                },
                None => {
                    parser.emit_u8(opcode::DEFINE_LOCAL);
                    parser.emit_u8(offset);
                },
            }
            if offset > 0 {
                offset -= 1;
            } else {
                done = true;
            }
        }
    }
    offset
}

/// As many POP as a declaration had values.
#[verifier::spinoff_prover]
fn declared_pops(parser: &mut Parser, count: u8)
    requires
        old(parser).wf(),
    ensures
        final(parser).wf(),
        final(parser)@ == old(parser)@.emitted_all(Seq::new(count as nat, |i: int| opcode::POP)),
        follows(old(parser)@, final(parser)@),
        final(parser)@.remaining() <= old(parser)@.remaining(),
        old(parser)@.code().len() <= final(parser)@.code().len(),
        old(parser)@.has_error ==> final(parser)@.has_error,
        final(parser).outer() == old(parser).outer(),
        final(parser).source() == old(parser).source(),
{
    let mut k: u8 = 0;
    proof {
        lemma_emitted_more(parser@, Seq::empty(), opcode::POP);
        assert(Seq::new(0, |i: int| opcode::POP) =~= Seq::<u8>::empty());
    }
    while k < count
        invariant
            k <= count,
            parser.wf(),
            parser@ == old(parser)@.emitted_all(Seq::new(k as nat, |i: int| opcode::POP)),
            follows(old(parser)@, parser@),
            parser@.remaining() <= old(parser)@.remaining(),
            old(parser)@.code().len() <= parser@.code().len(),
            old(parser)@.has_error ==> parser@.has_error,
            parser.outer() == old(parser).outer(),
            parser.source() == old(parser).source(),
        decreases count - k,
    {
        proof {
            lemma_emitted_more(old(parser)@, Seq::new(k as nat, |i: int| opcode::POP), opcode::POP);
            assert(Seq::new(k as nat, |i: int| opcode::POP).push(opcode::POP) =~= Seq::new(
                (k + 1) as nat,
                |i: int| opcode::POP,
            ));
        }
        parser.emit_u8(opcode::POP);
        k += 1;
    }
}

/// The count that the previous token stands for, where it is a number.
fn declared_count(parser: &Parser) -> (count: Option<u8>)
    ensures
        count == match parser@.previous.number {
            Some(bits) => Some(crate::value::number_count(bits) as u8),
            None => None,
        },
{
    match parser.previous_number() {
        Some(bits) => Some(number_to_count(bits)),
        None => None,
    }
}

/// Reads the name of a variable and declares it. Returns the constant
/// that holds the name of a global; none for a local.
#[verifier::spinoff_prover]
fn parse_variable(parser: &mut Parser, error: &str) -> (global: Option<u32>)
    requires
        old(parser).wf(),
    ensures
        final(parser).wf(),
        (final(parser)@, global) == old(parser)@.variable_parsed(error@),
        follows(old(parser)@, final(parser)@),
        final(parser)@.remaining() <= old(parser)@.remaining(),
        old(parser)@.code().len() <= final(parser)@.code().len(),
        old(parser)@.has_error ==> final(parser)@.has_error,
        final(parser).outer() == old(parser).outer(),
        final(parser).source() == old(parser).source(),
        global is Some ==> final(parser)@.frame.scope_depth == 0,
{
    proof {
        reveal(ParserView::variable_parsed);
    }
    parser.consume(Token::Identifier, error);
    declare_variable(parser);
    if parser.get_scope() > 0 {
        return None;
    }
    let ghost declared = parser@;
    let constant = parser.identifier_constant();
    proof {
        lemma_follows(declared, parser@);
    }
    constant
}

/// Inside a scope, declares the previous token as a local.
fn declare_variable(parser: &mut Parser)
    requires
        old(parser).wf(),
    ensures
        final(parser).wf(),
        final(parser)@ == if old(parser)@.frame.scope_depth == 0 {
            old(parser)@
        } else {
            old(parser)@.with_local(old(parser)@.previous_text())
        },
        follows(old(parser)@, final(parser)@),
        final(parser)@.remaining() <= old(parser)@.remaining(),
        old(parser)@.code().len() <= final(parser)@.code().len(),
        old(parser)@.has_error ==> final(parser)@.has_error,
        final(parser).outer() == old(parser).outer(),
        final(parser).source() == old(parser).source(),
{
    if parser.get_scope() == 0 {
        return ;
    }
    let name = parser.get_prev_token_string();
    let _ = parser.add_local(name);
}

/// `昔之 X 者 今 e 是矣`: the expression, then SET_LOCAL where X is a local,
/// else SET_GLOBAL.
#[verifier::rlimit(40)]
#[verifier::spinoff_prover]
pub fn assign_statement(parser: &mut Parser)
    requires
        old(parser).wf(),
    ensures
        final(parser).wf(),
        final(parser)@ == old(parser)@.assignment_compiled(),
        follows(old(parser)@, final(parser)@),
        final(parser)@.remaining() <= old(parser)@.remaining(),
        old(parser)@.code().len() <= final(parser)@.code().len(),
        old(parser)@.has_error ==> final(parser)@.has_error,
        final(parser).outer() == old(parser).outer(),
        final(parser).source() == old(parser).source(),
        old(parser)@.current.kind != TokenKind::Eof ==> final(parser)@.remaining() < old(parser)@.remaining(),
{
    proof {
        reveal(ParserView::assignment_compiled);
    }
    parser.advance();
    parser.advance();
    let name = parser.get_prev_token_string();
    let arg = parser.resolve_local(name);
    let target: Option<(u8, u32)> = match arg {
        Some(arg) => Some((opcode::SET_LOCAL, arg)),
        None => match parser.identifier_constant() {
            Some(constant) => Some((opcode::SET_GLOBAL, constant)),
            None => None,
        },
    };
    parser.consume(Token::Conjunction, "expect '者' in assign statement");
    parser.consume(Token::AssignTo, "expect '今' in assign statement.");
    parser.expression();
    parser.consume(Token::Sure, "expect '是矣' in assign statement.");
    if let Some((x, y)) = target {
        parser.emit_u8(x);
        parser.emit_u32(y);
    }
}

/// A block: statements up to `云云` or `也`, which is consumed, or up to one
/// of `stop_before_tokens`, which is not. The block is a scope: when it
/// ends, the locals are those that were there when it began, and one
/// POP_LOCAL was emitted for each local of the block.
#[verifier::spinoff_prover]
pub fn block_statement<const N: usize>(parser: &mut Parser, stop_before_tokens: [Token; N])
    requires
        old(parser).wf(),
    ensures
        final(parser).wf(),
        final(parser)@ == old(parser)@.block_compiled(stop_before_tokens@),
        follows(old(parser)@, final(parser)@),
        final(parser)@.remaining() <= old(parser)@.remaining(),
        old(parser)@.code().len() <= final(parser)@.code().len(),
        old(parser)@.has_error ==> final(parser)@.has_error,
        final(parser)@.frame.locals == old(parser)@.frame.locals,
        final(parser).outer() == old(parser).outer(),
        final(parser).source() == old(parser).source(),
    decreases old(parser)@.remaining(), 4int,
{
    proof {
        reveal(ParserView::block_compiled);
        reveal(ParserView::block_body);
    }
    if parser.get_scope() == i8::MAX {
        parser.error("Too many nested scopes.");
        return ;
    }
    parser.begin_scope();
    let ghost opened = parser@;
    let ghost stops = stop_before_tokens@;
    let preset_stop_tokens = [Token::YunYun, Token::Ye];
    proof {
        assert forall|kind: TokenKind| kind_among(kind, preset_stop_tokens@) == (kind == TokenKind::YunYun || kind
            == TokenKind::Ye) by {
            if kind == TokenKind::YunYun {
                assert(preset_stop_tokens@[0].kind() == kind);
            }
            if kind == TokenKind::Ye {
                assert(preset_stop_tokens@[1].kind() == kind);
            }
        }
    }
    while parser.check_not_in_vec(stop_before_tokens.as_slice()) && parser.check_not_in_vec(
        preset_stop_tokens.as_slice(),
    ) && !parser.check(Token::Eof)
        invariant
            parser.wf(),
            follows(opened, parser@),
            stops == stop_before_tokens@,
            opened.block_body(stops) == parser@.block_body(stops),
            forall|kind: TokenKind| kind_among(kind, preset_stop_tokens@) == (kind == TokenKind::YunYun || kind
                == TokenKind::Ye),
            parser.outer() == old(parser).outer(),
            parser.source() == old(parser).source(),
            parser@.remaining() <= old(parser)@.remaining(),
            old(parser)@.code().len() <= parser@.code().len(),
            old(parser)@.has_error ==> parser@.has_error,
        decreases parser@.remaining(),
    {
        proof {
            reveal(ParserView::block_body);
        }
        parser.declaration()
    }
    proof {
        reveal(ParserView::block_body);
    }
    if parser.check_in_vec(preset_stop_tokens.as_slice()) {
        parser.advance();
    } else if parser.check_in_vec(stop_before_tokens.as_slice()) {
    } else {
        parser.error("expect end token in block statement.")
    }
    let ghost inside = parser@;
    proof {
        parser.lemma_wf();
        lemma_follows(opened, inside);
        let depth = old(parser)@.frame.scope_depth;
        assert(old(parser)@.frame.locals =~= opened.frame.locals);
        assert forall|i: int| old(parser)@.frame.locals.len() <= i < inside.frame.locals.len() implies (
        #[trigger] inside.frame.locals[i]).depth > depth by {
            assert(inside.frame.locals[i].depth == inside.frame.scope_depth);
        }
        lemma_scope_restores(old(parser)@.frame.locals, inside.frame.locals, depth);
    }
    parser.end_scope();
    proof {
        reveal(follows);
        assert(parser@.frame.locals == old(parser)@.frame.locals);
        assert(old(parser)@.code().is_prefix_of(parser@.code()));
        assert(follows(old(parser)@, parser@));
    }
}

/// `名之曰 n`: defines `n` as the value on top of the stack and pops it.
#[verifier::spinoff_prover]
pub fn name_is_statement(parser: &mut Parser)
    requires
        old(parser).wf(),
    ensures
        final(parser).wf(),
        final(parser)@ == old(parser)@.name_compiled(),
        follows(old(parser)@, final(parser)@),
        final(parser)@.remaining() <= old(parser)@.remaining(),
        old(parser)@.code().len() <= final(parser)@.code().len(),
        old(parser)@.has_error ==> final(parser)@.has_error,
        final(parser).outer() == old(parser).outer(),
        final(parser).source() == old(parser).source(),
        old(parser)@.current.kind != TokenKind::Eof ==> final(parser)@.remaining() < old(parser)@.remaining(),
{
    proof {
        reveal(ParserView::name_compiled);
    }
    parser.advance();
    let global = parse_variable(parser, "Expect variable name.");
    if let Some(global) = global {
        parser.emit_u8(opcode::DEFINE_GLOBAL);
        parser.emit_u32(global);
    } else {
        parser.emit_u8(opcode::DEFINE_LOCAL);
    }
    parser.emit_u8(0);
    parser.emit_u8(opcode::POP);
}

/// `若 <cond> 者 <then> [若非 <else>] 云云`: the condition, JUMP_IF_FALSE
/// over the first branch, POP, the first branch, JUMP over the second
/// branch, POP, the second branch.
#[verifier::rlimit(80)]
#[verifier::spinoff_prover]
pub fn if_statement(parser: &mut Parser)
    requires
        old(parser).wf(),
        old(parser)@.current.kind == TokenKind::If,
    ensures
        final(parser).wf(),
        final(parser)@ == old(parser)@.conditional_compiled(),
        follows(old(parser)@, final(parser)@),
        final(parser)@.remaining() <= old(parser)@.remaining(),
        old(parser)@.code().len() <= final(parser)@.code().len(),
        old(parser)@.has_error ==> final(parser)@.has_error,
        final(parser).outer() == old(parser).outer(),
        final(parser).source() == old(parser).source(),
        final(parser)@.remaining() < old(parser)@.remaining(),
        !final(parser)@.has_error ==> exists|test: int, skip: int|
            old(parser)@.code().len() <= test && conditional_shape(final(parser)@.code(), test, skip),
    decreases old(parser)@.remaining(), 0int,
{
    proof {
        reveal(ParserView::conditional_compiled);
    }
    parser.advance();
    expression_statement(parser);
    parser.consume(Token::Conjunction, "expect '者'");
    let ghost test = parser@.code().len() as int;
    let then_jump = parser.emit_jump(opcode::JUMP_IF_FALSE);
    parser.emit_u8(opcode::POP);
    let ghost tested = parser@;
    proof {
        assert([Token::Else]@ =~= seq![Token::Else]);
    }
    block_statement(parser, [Token::Else]);
    let ghost first = parser@;
    let ghost skip = parser@.code().len() as int;
    let else_jump = parser.emit_jump(opcode::JUMP);
    let ghost before_then = parser@;
    parser.patch_jump(then_jump);
    let ghost patched = parser@;
    proof {
        lemma_patch_follows(old(parser)@, before_then, parser@, then_jump as int);
    }
    parser.emit_u8(opcode::POP);
    let ghost popped = parser@;
    if parser.check(Token::Else) {
        parser.advance();
        proof {
            let none: [Token; 0] = [];
            assert(none@ =~= Seq::<Token>::empty());
        }
        block_statement(parser, []);
    }
    let ghost before_else = parser@;
    parser.patch_jump(else_jump);
    proof {
        lemma_patch_follows(old(parser)@, before_else, parser@, else_jump as int);
        if !parser@.has_error {
            let code = parser@.code();
            lemma_follows_code(tested, first);
            lemma_follows_code(popped, before_else);
            assert(tested.code()[test] == opcode::JUMP_IF_FALSE);
            assert(tested.code()[test + 5] == opcode::POP);
            assert(before_then.code()[skip] == opcode::JUMP);
            assert(before_then.code()[test] == opcode::JUMP_IF_FALSE);
            assert(before_then.code()[test + 5] == opcode::POP);
            assert(patched.code()[test] == opcode::JUMP_IF_FALSE);
            assert(patched.code()[test + 5] == opcode::POP);
            assert(patched.code()[skip] == opcode::JUMP);
            assert(le_value(patched.code(), test + 1) == skip - test);
            assert(popped.code() =~= patched.code().push(opcode::POP));
            assert(popped.code()[skip + 5] == opcode::POP);
            assert(le_value(popped.code(), test + 1) == skip - test);
            assert(before_else.code()[test] == opcode::JUMP_IF_FALSE);
            assert(before_else.code()[test + 5] == opcode::POP);
            assert(before_else.code()[skip] == opcode::JUMP);
            assert(before_else.code()[skip + 5] == opcode::POP);
            assert(le_value(before_else.code(), test + 1) == skip - test);
            assert(code[test] == opcode::JUMP_IF_FALSE);
            assert(code[test + 5] == opcode::POP);
            assert(code[skip] == opcode::JUMP);
            assert(code[skip + 5] == opcode::POP);
            assert(le_value(code, test + 1) == skip - test);
            assert(le_value(code, skip + 1) == code.len() - skip - 5);
            assert(conditional_shape(code, test, skip));
        }
    }
}

/// The second operand of a boolean connective, then AND for `中無陰乎` or
/// OR for `中有陽乎`.
#[verifier::spinoff_prover]
pub fn boolean_algebra_statement(parser: &mut Parser)
    requires
        old(parser).wf(),
    ensures
        final(parser).wf(),
        final(parser)@ == old(parser)@.connective_compiled(),
        follows(old(parser)@, final(parser)@),
        final(parser)@.remaining() <= old(parser)@.remaining(),
        old(parser)@.code().len() <= final(parser)@.code().len(),
        old(parser)@.has_error ==> final(parser)@.has_error,
        final(parser).outer() == old(parser).outer(),
        final(parser).source() == old(parser).source(),
{
    proof {
        reveal(ParserView::connective_compiled);
    }
    parser.expression();
    match parser.current().get_value().kind() {
        TokenKind::And => parser.emit_u8(opcode::AND),
        TokenKind::Or => parser.emit_u8(opcode::OR),
        _ => parser.error_at_current("expect '中有陽乎' or '中無陰乎'."),
    }
    parser.advance()
}

/// `恆為是 <body> 云云`: RECORD_BREAK, the body, LOOP back to the body, and
/// DISCARD_BREAK, to which a break in the body leads.
#[verifier::rlimit(50)]
#[verifier::spinoff_prover]
pub fn for_while_statement(parser: &mut Parser)
    requires
        old(parser).wf(),
        old(parser)@.current.kind == TokenKind::Loop,
    ensures
        final(parser).wf(),
        final(parser)@ == old(parser)@.loop_compiled(),
        follows(old(parser)@, final(parser)@),
        final(parser)@.remaining() <= old(parser)@.remaining(),
        old(parser)@.code().len() <= final(parser)@.code().len(),
        old(parser)@.has_error ==> final(parser)@.has_error,
        final(parser).outer() == old(parser).outer(),
        final(parser).source() == old(parser).source(),
        final(parser)@.remaining() < old(parser)@.remaining(),
        !final(parser)@.has_error ==> loop_shape(final(parser)@.code(), old(parser)@.code().len() as int),
    decreases old(parser)@.remaining(), 0int,
{
    proof {
        reveal(ParserView::loop_compiled);
    }
    let ghost start = parser@.code().len() as int;
    parser.advance();
    let break_jump = parser.emit_jump(opcode::RECORD_BREAK);
    let ghost recorded = parser@;
    let loop_start = parser.current_code_len();
    proof {
        let none: [Token; 0] = [];
        assert(none@ =~= Seq::<Token>::empty());
    }
    block_statement(parser, []);
    let ghost body = parser@;
    parser.emit_loop(loop_start);
    let ghost looped = parser@;
    parser.patch_jump(break_jump);
    let ghost patched = parser@;
    proof {
        lemma_patch_follows(old(parser)@, looped, patched, break_jump as int);
    }
    parser.emit_u8(opcode::DISCARD_BREAK);
    proof {
        if !parser@.has_error {
            let code = parser@.code();
            lemma_follows_code(recorded, body);
            assert(recorded.code()[start] == opcode::RECORD_BREAK);
            let offset = (body.code().len() - loop_start + 4) as u32;
            lemma_appended_operand(body.code().push(opcode::LOOP), offset);
            assert(looped.code() =~= body.code().push(opcode::LOOP) + le_bytes(offset));
            assert(looped.code()[start] == opcode::RECORD_BREAK);
            assert(looped.code()[body.code().len() as int] == opcode::LOOP);
            assert(le_value(looped.code(), body.code().len() as int + 1) == offset);
            assert(code =~= patched.code().push(opcode::DISCARD_BREAK));
            assert(code[start] == opcode::RECORD_BREAK);
            assert(le_value(code, start + 1) == looped.code().len() - break_jump - 4);
            assert(code[code.len() - 6] == opcode::LOOP);
            assert(le_value(code, code.len() - 5) == offset);
        }
    }
}

/// `乃止`: BREAK.
pub fn break_statement(parser: &mut Parser)
    requires
        old(parser).wf(),
    ensures
        final(parser).wf(),
        final(parser)@ == old(parser)@.advanced().emitted(opcode::BREAK),
        follows(old(parser)@, final(parser)@),
        final(parser)@.remaining() <= old(parser)@.remaining(),
        old(parser)@.code().len() <= final(parser)@.code().len(),
        old(parser)@.has_error ==> final(parser)@.has_error,
        final(parser).outer() == old(parser).outer(),
        final(parser).source() == old(parser).source(),
        old(parser)@.current.kind != TokenKind::Eof ==> final(parser)@.remaining() < old(parser)@.remaining(),
{
    parser.advance();
    parser.emit_u8(opcode::BREAK)
}

/// `為是 e 遍 <body> 云云`: the body as often as `e` says.
///
/// The count goes into a hidden local of a scope of its own. The code
/// tests whether the local is above 0, executes the body, takes 1 off the
/// local and goes back to the test. A break leads behind the loop.
#[verifier::spinoff_prover]
pub fn for_statement(parser: &mut Parser)
    requires
        old(parser).wf(),
        old(parser)@.current.kind == TokenKind::For,
    ensures
        final(parser).wf(),
        final(parser)@ == old(parser)@.counted_compiled(),
        follows(old(parser)@, final(parser)@),
        final(parser)@.remaining() <= old(parser)@.remaining(),
        old(parser)@.code().len() <= final(parser)@.code().len(),
        old(parser)@.has_error ==> final(parser)@.has_error,
        final(parser).outer() == old(parser).outer(),
        final(parser).source() == old(parser).source(),
        final(parser)@.remaining() < old(parser)@.remaining(),
    decreases old(parser)@.remaining(), 0int,
{
    proof {
        reveal(ParserView::counted_compiled);
    }
    parser.advance();
    parser.expression();
    parser.consume(Token::ForMid, "expect '遍' in for statement.");
    if parser.get_scope() == i8::MAX {
        parser.error("Too many nested scopes.");
        return ;
    }
    let ghost counted = parser@;
    parser.begin_scope();
    let ghost opened = parser@;
    counted_loop(parser);
    let ghost inside = parser@;
    proof {
        lemma_follows(opened, inside);
        let depth = counted.frame.scope_depth;
        assert(counted.frame.locals =~= opened.frame.locals);
        assert forall|i: int| counted.frame.locals.len() <= i < inside.frame.locals.len() implies (
        #[trigger] inside.frame.locals[i]).depth > depth by {
            assert(inside.frame.locals[i].depth == inside.frame.scope_depth);
        }
        lemma_scope_restores(counted.frame.locals, inside.frame.locals, depth);
    }
    parser.end_scope();
    proof {
        assert(follows(counted, parser@)) by {
            reveal(follows);
        }
    }
}

/// The test of a counted loop: whether the local in `slot` is above 0.
/// Returns the operands to patch of the jump out of the loop and of the
/// jump to the body.
#[verifier::spinoff_prover]
fn countdown_test(parser: &mut Parser, slot: u32) -> (jumps: (usize, usize))
    requires
        old(parser).wf(),
    ensures
        final(parser).wf(),
        (final(parser)@ == old(parser)@.countdown_tested(slot)),
        follows(old(parser)@, final(parser)@),
        final(parser)@.remaining() == old(parser)@.remaining(),
        old(parser)@.code().len() <= final(parser)@.code().len(),
        old(parser)@.has_error ==> final(parser)@.has_error,
        final(parser).outer() == old(parser).outer(),
        final(parser).source() == old(parser).source(),
        old(parser)@.code().len() <= jumps.0,
        jumps.0 + 10 == final(parser)@.code().len(),
        jumps.1 + 4 == final(parser)@.code().len(),
{
    proof {
        reveal(ParserView::countdown_tested);
    }
    parser.emit_bytes(opcode::GET_LOCAL, slot);
    parser.emit_constant(Value::Number(NUMBER_ZERO));
    parser.emit_u8(opcode::GREATER);
    let exit_jump = parser.emit_jump(opcode::JUMP_IF_FALSE);
    parser.emit_u8(opcode::POP);
    let body_jump = parser.emit_jump(opcode::JUMP);
    (exit_jump, body_jump)
}

/// The step of a counted loop: takes 1 off the local in `slot`.
#[verifier::spinoff_prover]
fn countdown_step(parser: &mut Parser, slot: u32)
    requires
        old(parser).wf(),
    ensures
        final(parser).wf(),
        final(parser)@ == old(parser)@.countdown_stepped(slot),
        follows(old(parser)@, final(parser)@),
        final(parser)@.remaining() == old(parser)@.remaining(),
        old(parser)@.code().len() <= final(parser)@.code().len(),
        old(parser)@.has_error ==> final(parser)@.has_error,
        final(parser).outer() == old(parser).outer(),
        final(parser).source() == old(parser).source(),
{
    proof {
        reveal(ParserView::countdown_stepped);
    }
    parser.emit_bytes(opcode::GET_LOCAL, slot);
    parser.emit_constant(Value::Number(NUMBER_ONE));
    parser.emit_u8(opcode::SUBTRACT);
    parser.emit_u8(opcode::PREPOSITION_RIGHT);
    parser.emit_u8(opcode::SET_LOCAL);
    parser.emit_u32(slot);
}

/// The loop of a counted loop, inside its scope; the count is on top of
/// the stack.
#[verifier::spinoff_prover]
#[verifier::rlimit(80)]
fn counted_loop(parser: &mut Parser)
    requires
        old(parser).wf(),
    ensures
        final(parser).wf(),
        final(parser)@ == old(parser)@.counted_inside(),
        follows(old(parser)@, final(parser)@),
        final(parser)@.remaining() <= old(parser)@.remaining(),
        old(parser)@.code().len() <= final(parser)@.code().len(),
        old(parser)@.has_error ==> final(parser)@.has_error,
        final(parser).outer() == old(parser).outer(),
        final(parser).source() == old(parser).source(),
        !final(parser)@.has_error ==> break_shape(final(parser)@.code(), old(parser)@.code().len() as int),
    decreases old(parser)@.remaining(), 6int,
{
    proof {
        reveal(ParserView::counted_inside);
    }
    let ghost start = parser@.code().len() as int;
    let break_jump = parser.emit_jump(opcode::RECORD_BREAK);
    let ghost recorded = parser@;
    parser.define_local_variable("inner_for_loop_var");
    let slot: u32 = match parser.resolve_local(String::from_str("inner_for_loop_var")) {
        Some(slot) => slot,
        None => 0,
    };
    let loop_start = parser.current_code_len();
    let (exit_jump, body_jump) = countdown_test(parser, slot);
    let increase_start = parser.current_code_len();
    countdown_step(parser, slot);
    parser.emit_loop(loop_start);
    let ghost before_body = parser@;
    parser.patch_jump(body_jump);
    proof {
        lemma_patch_follows(old(parser)@, before_body, parser@, body_jump as int);
        lemma_patch_follows(recorded, before_body, parser@, body_jump as int);
    }
    proof {
        let none: [Token; 0] = [];
        assert(none@ =~= Seq::<Token>::empty());
    }
    block_statement(parser, []);
    parser.emit_loop(increase_start);
    let ghost before_exit = parser@;
    parser.patch_jump(exit_jump);
    proof {
        lemma_patch_follows(old(parser)@, before_exit, parser@, exit_jump as int);
        lemma_patch_follows(recorded, before_exit, parser@, exit_jump as int);
    }
    parser.emit_u8(opcode::POP);
    let ghost before_break = parser@;
    parser.patch_jump(break_jump);
    let ghost patched = parser@;
    proof {
        lemma_patch_follows(old(parser)@, before_break, parser@, break_jump as int);
    }
    parser.emit_u8(opcode::DISCARD_BREAK);
    proof {
        if !parser@.has_error {
            let code = parser@.code();
            lemma_follows_code(recorded, before_break);
            assert(recorded.code()[start] == opcode::RECORD_BREAK);
            assert(before_break.code()[start] == opcode::RECORD_BREAK);
            assert(patched.code()[start] == opcode::RECORD_BREAK);
            assert(le_value(patched.code(), start + 1) == before_break.code().len() - start - 5);
            assert(code =~= patched.code().push(opcode::DISCARD_BREAK));
            assert(code[start] == opcode::RECORD_BREAK);
            assert(le_value(code, start + 1) == before_break.code().len() - start - 5);
        }
    }
}

/// `吾有一術 名之曰 N .. 是謂 N 之術也`: the function, then its definition
/// under the name N, as a global or inside a scope as a local.
#[verifier::spinoff_prover]
pub fn fun_statement(parser: &mut Parser)
    requires
        old(parser).wf(),
        old(parser)@.current.kind == TokenKind::Fun,
    ensures
        final(parser).wf(),
        final(parser)@ == old(parser)@.function_defined(),
        follows(old(parser)@, final(parser)@),
        final(parser)@.remaining() <= old(parser)@.remaining(),
        old(parser)@.code().len() <= final(parser)@.code().len(),
        old(parser)@.has_error ==> final(parser)@.has_error,
        final(parser).outer() == old(parser).outer(),
        final(parser).source() == old(parser).source(),
        final(parser)@.remaining() < old(parser)@.remaining(),
    decreases old(parser)@.remaining(), 0int,
{
    proof {
        reveal(ParserView::function_defined);
    }
    parser.advance();
    parser.consume(Token::NameIs, "expect '名之曰' in function declaration.");
    let global = parse_variable(parser, "expect function name.");
    function(parser, FunctionType::Function);
    match global {
        Some(global) => parser.define_global(global),
        None => {
            if parser.get_scope() > 0 {
                parser.emit_u8(opcode::DEFINE_LOCAL);
                parser.emit_u8(0);
            }
        },
    }
}

/// Compiles a function of kind `kind`, named by the previous token, puts
/// it into the function table and emits the constant that refers to it.
///
/// The function is `[欲行是術 必先得 曰 x1 曰 x2 ..] 是術曰 <body> 是謂 N 之術也`:
/// each `曰 x` is a parameter, which counts for the arity and is a local
/// of the function.
#[verifier::spinoff_prover]
#[verifier::rlimit(80)]
pub fn function(parser: &mut Parser, kind: FunctionType)
    requires
        old(parser).wf(),
    ensures
        final(parser).wf(),
        final(parser)@ == old(parser)@.function_compiled(kind),
        follows(old(parser)@, final(parser)@),
        final(parser)@.remaining() <= old(parser)@.remaining(),
        old(parser)@.code().len() <= final(parser)@.code().len(),
        old(parser)@.has_error ==> final(parser)@.has_error,
        final(parser).outer() == old(parser).outer(),
        final(parser).source() == old(parser).source(),
    decreases old(parser)@.remaining(), 5int,
{
    proof {
        reveal(ParserView::function_compiled);
        reveal(ParserView::function_finished);
        reveal(ParserView::function_registered);
    }
    parser.enter_compiler(kind);
    parser.begin_scope();
    let ghost opened = parser@;
    if parser.is_match(Token::FunctionReady) {
        parser.consume(Token::FunctionArg, "expect '必先得'");
        parameters(parser);
    }
    parser.consume(Token::FunctionBodyBegin, "expect '是術曰'.");
    proof {
        assert([Token::FunctionEnd1]@ =~= seq![Token::FunctionEnd1]);
    }
    block_statement(parser, [Token::FunctionEnd1]);
    parser.consume(Token::FunctionEnd1, "expect '是謂' in function end.");
    parser.consume(Token::Identifier, "expect identifier in function end.");
    parser.consume(Token::FunctionEnd2, "expect '之術也' in function end.");
    let ghost inner = parser@;
    let finished = parser.end_compiler();
    let ghost ended = parser@;
    proof {
        lemma_follows(opened, inner);
        assert(follows(old(parser)@, ended)) by {
            reveal(follows);
        }
    }
    if let Some(function) = finished {
        if !function.chunk().is_well_formed() {
            parser.error("Malformed code.");
        } else if !parser.has_room() {
            parser.error("Too many functions.");
        } else {
            let fun_id = parser.add_closure(function);
            if let Some(id) = parser.make_constant(Value::Function(fun_id)) {
                parser.emit_bytes(opcode::CONSTANT, id);
            }
        }
    }
}

/// The parameters of a function: up to `是術曰`, each `曰 x` is a parameter,
/// which is a local that takes the value on top of the stack; other tokens
/// are skipped.
#[verifier::spinoff_prover]
fn parameters(parser: &mut Parser)
    requires
        old(parser).wf(),
    ensures
        final(parser).wf(),
        final(parser)@ == old(parser)@.parameters_compiled(),
        follows(old(parser)@, final(parser)@),
        final(parser)@.remaining() <= old(parser)@.remaining(),
        old(parser)@.code().len() <= final(parser)@.code().len(),
        old(parser)@.has_error ==> final(parser)@.has_error,
        final(parser).outer() == old(parser).outer(),
        final(parser).source() == old(parser).source(),
{
    proof {
        reveal(ParserView::parameters_compiled);
    }
    while !parser.check(Token::FunctionBodyBegin) && !parser.check(Token::Eof)
        invariant
            parser.wf(),
            old(parser)@.parameters_compiled() == parser@.parameters_compiled(),
            follows(old(parser)@, parser@),
            parser@.remaining() <= old(parser)@.remaining(),
            old(parser)@.code().len() <= parser@.code().len(),
            old(parser)@.has_error ==> parser@.has_error,
            parser.outer() == old(parser).outer(),
            parser.source() == old(parser).source(),
        decreases parser@.remaining(),
    {
        proof {
            reveal(ParserView::parameters_compiled);
        }
        if parser.is_match(Token::Is) {
            let _ = parser.add_parameter();
            let _ = parse_variable(parser, "expect a parameter name.");
            parser.emit_u8(opcode::DEFINE_LOCAL);
            parser.emit_u8(0);
        } else {
            parser.advance();
        }
    }
    proof {
        reveal(ParserView::parameters_compiled);
    }
}

/// `施 f 以 a1 a2 ..`: the callee, the arguments, then CALL with the number
/// of arguments. The preposition may be `以` or `於`.
#[verifier::spinoff_prover]
pub fn call_statement(parser: &mut Parser)
    requires
        old(parser).wf(),
    ensures
        final(parser).wf(),
        final(parser)@ == old(parser)@.call_compiled(),
        follows(old(parser)@, final(parser)@),
        final(parser)@.remaining() <= old(parser)@.remaining(),
        old(parser)@.code().len() <= final(parser)@.code().len(),
        old(parser)@.has_error ==> final(parser)@.has_error,
        final(parser).outer() == old(parser).outer(),
        final(parser).source() == old(parser).source(),
        old(parser)@.current.kind != TokenKind::Eof ==> final(parser)@.remaining() < old(parser)@.remaining(),
{
    proof {
        reveal(ParserView::call_compiled);
    }
    parser.advance();
    parser.expression();
    if !parser.is_match(Token::PrepositionRight) {
        parser.consume(Token::PrepositionLeft, "only support '以' or '於' in function call now.");
    }
    let arg_count = argument_list(parser);
    parser.emit_bytes(opcode::CALL, arg_count);
}

/// The arguments of a call: expressions as long as literals or names
/// follow. Returns their number.
#[verifier::spinoff_prover]
pub fn argument_list(parser: &mut Parser) -> (arg_count: u32)
    requires
        old(parser).wf(),
    ensures
        final(parser).wf(),
        (final(parser)@, arg_count) == old(parser)@.arguments_compiled(0),
        follows(old(parser)@, final(parser)@),
        final(parser)@.remaining() <= old(parser)@.remaining(),
        old(parser)@.code().len() <= final(parser)@.code().len(),
        old(parser)@.has_error ==> final(parser)@.has_error,
        final(parser).outer() == old(parser).outer(),
        final(parser).source() == old(parser).source(),
{
    proof {
        reveal(ParserView::arguments_compiled);
    }
    let mut arg_count: u32 = 0;
    while parser.is_match_literal()
        invariant
            parser.wf(),
            old(parser)@.arguments_compiled(0) == parser@.arguments_compiled(arg_count),
            follows(old(parser)@, parser@),
            parser@.remaining() <= old(parser)@.remaining(),
            old(parser)@.code().len() <= parser@.code().len(),
            old(parser)@.has_error ==> parser@.has_error,
            parser.outer() == old(parser).outer(),
            parser.source() == old(parser).source(),
        decreases parser@.remaining(),
    {
        proof {
            reveal(ParserView::arguments_compiled);
        }
        parser.expression();
        if arg_count < u32::MAX {
            arg_count += 1;
        } else {
            parser.error("Too many arguments.");
        }
    }
    proof {
        reveal(ParserView::arguments_compiled);
    }
    arg_count
}

/// `乃得 e`: the expression, then RETURN. Not allowed at the top level.
#[verifier::spinoff_prover]
pub fn return_statement(parser: &mut Parser)
    requires
        old(parser).wf(),
    ensures
        final(parser).wf(),
        final(parser)@ == old(parser)@.return_compiled(),
        follows(old(parser)@, final(parser)@),
        final(parser)@.remaining() <= old(parser)@.remaining(),
        old(parser)@.code().len() <= final(parser)@.code().len(),
        old(parser)@.has_error ==> final(parser)@.has_error,
        final(parser).outer() == old(parser).outer(),
        final(parser).source() == old(parser).source(),
        old(parser)@.frame.fun_kind == FunctionType::Script ==> final(parser)@.has_error && final(parser)@.current
            == old(parser)@.current,
        old(parser)@.frame.fun_kind != FunctionType::Script && old(parser)@.current.kind != TokenKind::Eof
            ==> final(parser)@.remaining() < old(parser)@.remaining(),
{
    proof {
        reveal(ParserView::return_compiled);
    }
    if parser.current_compiler().fun_kind() == FunctionType::Script {
        parser.error_at_current("cannot return from top-level code.");
        return ;
    }
    parser.advance();
    parser.expression();
    parser.emit_u8(opcode::RETURN);
}

} // verus!
