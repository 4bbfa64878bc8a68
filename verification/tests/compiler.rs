use wyw::compiler::{Compiler, FunctionType, Parser};
use wyw::interpreter::Runtime;
use wyw::object::{Closure, Function, ObjUpValue};
use wyw::opcode;
use wyw::statements::{break_statement, print_statement};
use wyw::token::Token;
use wyw::value::Value;

fn compile(source: &str, numbers: Vec<Option<u64>>) -> (Vec<u8>, Vec<Value>, Vec<usize>) {
    let mut parser = Parser::new(source, Runtime::new(), &numbers);
    let script = parser.compile().expect("the source compiles");
    let runtime = parser.into_runtime();
    let chunk = runtime.get_closure(&script).function().chunk();
    assert!(chunk.is_well_formed());
    let lines = (0..chunk.len()).map(|index| chunk.get_line(index)).collect();
    (chunk.code().clone(), chunk.constants().clone(), lines)
}

fn one() -> Option<u64> {
    Some(1.0f64.to_bits())
}

#[test]
fn arithmetic_has_its_preposition_behind_the_instruction() {
    let (code, constants, _) = compile("加一以一", vec![one(), one()]);
    assert_eq!(
        code,
        vec![
            opcode::CONSTANT, 0, 0, 0, 0,
            opcode::CONSTANT, 1, 0, 0, 0,
            opcode::ADD, opcode::PREPOSITION_RIGHT,
            opcode::NIL, opcode::RETURN,
        ]
    );
    assert_eq!(constants, vec![Value::Number(1.0f64.to_bits()), Value::Number(1.0f64.to_bits())]);
    let (code, _, _) = compile("減一於一", vec![one(), one()]);
    assert_eq!(code[10..12], [opcode::SUBTRACT, opcode::PREPOSITION_LEFT]);
    let (code, _, _) = compile("乘一於一", vec![one(), one()]);
    assert_eq!(code[10..12], [opcode::MULTIPLY, opcode::PREPOSITION_LEFT]);
}

#[test]
fn instructions_have_the_line_of_their_token() {
    let (code, _, lines) = compile("書之\n\n書之\n夫陽", vec![]);
    assert_eq!(code, vec![opcode::PRINT, opcode::PRINT, opcode::TRUE, opcode::NIL, opcode::RETURN]);
    assert_eq!(lines, vec![1, 3, 4, 4, 4]);
}

#[test]
fn conditional_jumps_over_its_branches() {
    let (code, _, _) = compile("若陽者書之若非乃止云云", vec![]);
    assert_eq!(
        code,
        vec![
            opcode::TRUE,
            opcode::JUMP_IF_FALSE, 7, 0, 0, 0,
            opcode::POP,
            opcode::PRINT,
            opcode::JUMP, 2, 0, 0, 0,
            opcode::POP,
            opcode::BREAK,
            opcode::NIL, opcode::RETURN,
        ]
    );
}

#[test]
fn loop_records_where_a_break_leads() {
    let (code, _, _) = compile("恆為是乃止云云", vec![]);
    assert_eq!(
        code,
        vec![
            opcode::RECORD_BREAK, 6, 0, 0, 0,
            opcode::BREAK,
            opcode::LOOP, 5, 0, 0, 0,
            opcode::DISCARD_BREAK,
            opcode::NIL, opcode::RETURN,
        ]
    );
}

#[test]
fn counted_loop_counts_down_a_hidden_local() {
    let (code, constants, _) = compile("為是一遍書之云云", vec![one()]);
    assert_eq!(
        code,
        vec![
            opcode::CONSTANT, 0, 0, 0, 0,
            opcode::RECORD_BREAK, 54, 0, 0, 0,
            opcode::DEFINE_LOCAL, 0, opcode::POP,
            opcode::GET_LOCAL, 0, 0, 0, 0,
            opcode::CONSTANT, 1, 0, 0, 0,
            opcode::GREATER,
            opcode::JUMP_IF_FALSE, 34, 0, 0, 0,
            opcode::POP,
            opcode::JUMP, 22, 0, 0, 0,
            opcode::GET_LOCAL, 0, 0, 0, 0,
            opcode::CONSTANT, 2, 0, 0, 0,
            opcode::SUBTRACT, opcode::PREPOSITION_RIGHT,
            opcode::SET_LOCAL, 0, 0, 0, 0,
            opcode::LOOP, 43, 0, 0, 0,
            opcode::PRINT,
            opcode::LOOP, 27, 0, 0, 0,
            opcode::POP,
            opcode::DISCARD_BREAK,
            opcode::POP_LOCAL,
            opcode::NIL, opcode::RETURN,
        ]
    );
    assert_eq!(
        constants,
        vec![Value::Number(1.0f64.to_bits()), Value::Number(0), Value::Number(1.0f64.to_bits())]
    );
}

#[test]
fn block_pops_its_locals() {
    let (code, _, _) = compile("若陽者夫陽名之曰「甲」夫陰名之曰「乙」云云", vec![]);
    assert_eq!(
        code,
        vec![
            opcode::TRUE,
            opcode::JUMP_IF_FALSE, 16, 0, 0, 0,
            opcode::POP,
            opcode::TRUE,
            opcode::DEFINE_LOCAL, 0, opcode::POP,
            opcode::FALSE,
            opcode::DEFINE_LOCAL, 0, opcode::POP,
            opcode::POP_LOCAL, opcode::POP_LOCAL,
            opcode::JUMP, 1, 0, 0, 0,
            opcode::POP,
            opcode::NIL, opcode::RETURN,
        ]
    );
}

#[test]
fn parser_reads_token_by_token() {
    let numbers = vec![];
    let mut parser = Parser::new("書之 乃止 「甲」", Runtime::new(), &numbers);
    parser.advance();
    assert!(parser.check(Token::Print));
    assert!(!parser.check(Token::Break));
    assert!(parser.check_in_vec(&[Token::Break, Token::Print]));
    assert!(parser.check_not_in_vec(&[Token::Break, Token::Eof]));
    assert!(!parser.is_match_literal());
    print_statement(&mut parser);
    assert!(parser.is_match(Token::Break));
    assert!(!parser.is_match(Token::Break));
    assert!(parser.is_match_literal());
    parser.consume(Token::Identifier, "expect a name");
    assert_eq!(parser.get_prev_token_string(), "甲");
    assert_eq!(parser.previous().get_start(), 17);
    assert_eq!(parser.current().get_line(), 1);
    assert!(!parser.had_error());
    parser.consume(Token::Identifier, "expect a name");
    assert!(parser.had_error());
    assert_eq!(parser.diagnostics().len(), 1);
    assert_eq!(parser.diagnostics()[0].render(), "[line 1] compiler error at end: expect a name");
    assert_eq!(parser.diagnostics()[0].line(), 1);
    assert!(parser.diagnostics()[0].at_end());
    assert_eq!(parser.diagnostics()[0].message(), "expect a name");
    parser.error("again");
    assert_eq!(parser.diagnostics().len(), 1);
    assert_eq!(*parser.current_chunk().code(), vec![opcode::PRINT]);
    assert_eq!(parser.current_code_len(), 1);
    break_statement(&mut parser);
    assert_eq!(*parser.current_chunk().code(), vec![opcode::PRINT, opcode::BREAK]);
}

#[test]
fn parser_emits_and_patches() {
    let numbers = vec![];
    let mut parser = Parser::new("", Runtime::new(), &numbers);
    parser.advance();
    let jump = parser.emit_jump(opcode::JUMP);
    assert_eq!(jump, 1);
    parser.emit_u8(opcode::NIL);
    parser.emit_bytes(opcode::CALL, 2);
    parser.patch_jump(jump);
    parser.emit_loop(5);
    parser.define_global(3);
    parser.emit_constant(Value::Nil);
    parser.set_u32(7, 9);
    parser.emit_u32(0x01020304);
    assert_eq!(
        *parser.current_chunk().code(),
        vec![
            opcode::JUMP, 6, 0, 0, 0,
            opcode::NIL,
            opcode::CALL, 9, 0, 0, 0,
            opcode::LOOP, 10, 0, 0, 0,
            opcode::DEFINE_GLOBAL, 3, 0, 0, 0, 0,
            opcode::CONSTANT, 0, 0, 0, 0,
            4, 3, 2, 1,
        ]
    );
    assert_eq!(parser.make_constant(Value::Bool(true)), Some(1));
    assert_eq!(parser.get_scope(), 0);
    parser.begin_scope();
    assert_eq!(parser.get_scope(), 1);
    assert!(parser.add_local("甲".to_string()));
    assert!(parser.add_local("乙".to_string()));
    assert!(parser.add_local("甲".to_string()));
    assert_eq!(parser.resolve_local("甲".to_string()), Some(2));
    assert_eq!(parser.resolve_local("乙".to_string()), Some(1));
    assert_eq!(parser.resolve_local("丙".to_string()), None);
    let before = parser.current_code_len();
    parser.end_scope();
    assert_eq!(parser.current_code_len(), before + 3);
    assert_eq!(parser.resolve_local("甲".to_string()), None);
    assert_eq!(parser.current_compiler().fun_kind(), FunctionType::Script);
}

#[test]
fn compilers_keep_their_locals() {
    let mut compiler = Compiler::init(FunctionType::Function);
    assert_eq!(compiler.scope_depth(), 0);
    compiler.begin_scope();
    compiler.add_local("甲".to_string());
    assert_eq!(compiler.resolve_local("甲".to_string()), Some(0));
    assert_eq!(compiler.scope_depth(), 1);
    assert_eq!(compiler.fun_kind(), FunctionType::Function);
    compiler.function_mut().add_arity(2);
    compiler.set_enclosing(Compiler::init(FunctionType::Script));
}

#[test]
fn functions_and_closures() {
    let mut function = Function::new();
    assert_eq!(function.name(), "");
    assert_eq!(function.arity(), 0);
    function.set_name("甲".to_string());
    function.add_arity(2);
    function.plus_upvalues_count();
    function.plus_upvalues_count();
    assert_eq!(function.name(), "甲");
    assert_eq!(function.arity(), 2);
    assert_eq!(function.upvalues_count(), 2);
    assert_eq!(function.up_values_count(), 2);
    function.chunk_mut().write(opcode::RETURN, 1);
    assert_eq!(function.chunk().len(), 1);
    let mut closure = Closure::new(function);
    assert_eq!(closure.upvalues_count(), 2);
    assert_eq!(*closure.get_upvalues(1).location(), Value::Nil);
    closure.set_upvalue(1, ObjUpValue::new(Value::Bool(true)));
    assert_eq!(*closure.get_upvalues(1).location(), Value::Bool(true));
    assert_eq!(closure.function().arity(), 2);
    let mut cell = ObjUpValue::default();
    *cell.location_mut() = Value::Bool(false);
    assert_eq!(*cell.location(), Value::Bool(false));
}
