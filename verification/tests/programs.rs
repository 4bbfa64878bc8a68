use wyw::interpreter::{interpret, number_literals, InterpretStatus};
use wyw::machine::{ArithmeticOp, Request};
use wyw::value::Value;
use wyw::vm::{join_line, render_error, Event, Printed, VMMode, VM};

fn answer(request: &Request) -> u64 {
    let left = f64::from_bits(request.left);
    let right = f64::from_bits(request.right);
    let result = match request.op {
        ArithmeticOp::Add => left + right,
        ArithmeticOp::Subtract => left - right,
        ArithmeticOp::Multiply => left * right,
    };
    result.to_bits()
}

fn piece(printed: &Printed) -> String {
    match printed {
        Printed::Text(text) => text.clone(),
        Printed::Number(bits) => format!("{}", f64::from_bits(*bits)),
    }
}

fn drive(vm: &mut VM) -> (Vec<String>, InterpretStatus) {
    let mut lines = vec![];
    for _ in 0..100000 {
        match vm.run(VMMode::Run, 1000) {
            Event::Continue => {}
            Event::Print(pieces) => {
                let parts: Vec<String> = pieces.iter().map(piece).collect();
                lines.push(join_line(&parts));
            }
            Event::Arithmetic(request) => {
                assert!(vm.resume(answer(&request)));
            }
            Event::Error { line, message } => {
                lines.push(render_error(line, &message));
            }
            Event::Done(status) => return (lines, status),
        }
    }
    panic!("the program did not end");
}

fn numbers_of(source: &str) -> Vec<Option<u64>> {
    number_literals(source)
        .iter()
        .map(|literal| match literal {
            Some(text) => text.parse::<f64>().ok().map(|number| number.to_bits()),
            None => None,
        })
        .collect()
}

fn load(source: &str) -> Result<VM, Vec<String>> {
    let numbers = numbers_of(source);
    match interpret(source, &numbers) {
        Ok(vm) => Ok(vm),
        Err(diagnostics) => Err(diagnostics.iter().map(|d| d.render()).collect()),
    }
}

fn run_source(source: &str) -> (Vec<String>, InterpretStatus) {
    match load(source) {
        Ok(mut vm) => drive(&mut vm),
        Err(lines) => (lines, InterpretStatus::CompilerError),
    }
}

fn output(source: &str) -> Vec<String> {
    let (lines, status) = run_source(source);
    assert_eq!(status, InterpretStatus::Success, "{:?}", lines);
    lines
}

#[test]
fn run() {
    let (_lines, status) = run_source(
        "吾有一術名之曰「階乘」欲行是術必先得一數曰「甲」乃行是術曰
        若「甲」等於一者。
            乃得「甲」
        若非
            減「甲」以一名之曰「乙」
            施「階乘」於「乙」名之曰「丙」
            乘「丙」以「甲」。名之曰「丁」
            乃得「丁」
        云云
    是謂「階乘」之術也
    
    施「階乘」於五書之",
    );
    assert_eq!(status, InterpretStatus::CompilerError);
}

#[test]
fn declaration_defines_a_global() {
    let mut vm = load("吾有一數曰五名之曰「甲」").unwrap();
    let (lines, status) = drive(&mut vm);
    assert_eq!(lines, Vec::<String>::new());
    assert_eq!(status, InterpretStatus::Success);
    assert_eq!(vm.get_global("甲"), Some(Value::Number(5.0f64.to_bits())));
    assert_eq!(vm.get_global("乙"), None);
}

#[test]
fn adds_in_source_order() {
    assert_eq!(output("加一以二書之"), vec!["3"]);
}

#[test]
fn prints_a_string() {
    assert_eq!(output("吾有一言曰「「hello」」書之"), vec!["hello"]);
}

#[test]
fn conditional_runs_its_branch() {
    assert_eq!(output("若二等於二者加一以五書之云云"), vec!["6"]);
}

#[test]
fn conditional_takes_the_other_branch() {
    assert_eq!(output("若二等於三者加一以五書之若非加一以一書之云云"), vec!["2"]);
    assert_eq!(output("若二不等於三者加一以五書之若非加一以一書之云云"), vec!["6"]);
    assert_eq!(output("若二小於三者加一以五書之云云"), vec!["6"]);
    assert_eq!(output("若二大於三者加一以五書之云云"), Vec::<String>::new());
    assert_eq!(output("若二不大於三者加一以五書之云云"), vec!["6"]);
    assert_eq!(output("若二不小於三者加一以五書之云云"), Vec::<String>::new());
}

#[test]
fn counted_loop_with_break() {
    let source = "吾有一數曰一名之曰「甲」 為是五遍 若「甲」等於三者 乃止 云云 加「甲」以一 昔之「甲」者今其是矣 吾有一言曰「「一遍」」書之 云云";
    assert_eq!(output(source), vec!["一遍", "一遍"]);
}

#[test]
fn counted_loop_counts() {
    assert_eq!(output("為是三遍 吾有一言曰「「一遍」」書之 云云"), vec!["一遍", "一遍", "一遍"]);
    assert_eq!(output("為是零遍 吾有一言曰「「一遍」」書之 云云"), Vec::<String>::new());
}

#[test]
fn endless_loop_ends_with_break() {
    let source = "吾有一數曰一名之曰「甲」 恆為是 若「甲」等於四者 乃止 云云 加「甲」以一 昔之「甲」者今其是矣 云云 夫「甲」書之";
    assert_eq!(output(source), vec!["4"]);
}

#[test]
fn factorial() {
    let source = "吾有一術名之曰「階乘」欲行是術必先得一數曰「甲」是術曰
        若「甲」等於一者
            乃得「甲」
        若非
            減「甲」以一名之曰「乙」
            施「階乘」於「乙」名之曰「丙」
            乘「丙」以「甲」名之曰「丁」
            乃得「丁」
        云云
    是謂「階乘」之術也
    施「階乘」於五書之";
    assert_eq!(output(source), vec!["120"]);
}

#[test]
fn preposition_decides_the_order() {
    assert_eq!(output("減七以二書之"), vec!["5"]);
    assert_eq!(output("減七於二書之"), vec!["-5"]);
    assert_eq!(output("加七於二書之"), vec!["9"]);
    assert_eq!(output("乘七以二書之"), vec!["14"]);
    assert_eq!(output("乘七於二書之"), vec!["14"]);
}

#[test]
fn strings_are_joined() {
    assert_eq!(output("加「「ab」」以「「cd」」書之"), vec!["abcd"]);
    assert_eq!(output("加「「ab」」於「「cd」」書之"), vec!["abcd"]);
}

#[test]
fn values_are_written_out() {
    assert_eq!(output("夫陽書之"), vec!["true"]);
    assert_eq!(output("夫陰書之"), vec!["false"]);
    assert_eq!(output("變陰書之"), vec!["true"]);
    assert_eq!(output("變一書之"), vec!["false"]);
    assert_eq!(output("吾有二數曰一曰二書之"), vec!["1 2"]);
    assert_eq!(output("夫一·五書之"), vec!["1.5"]);
}

#[test]
fn boolean_algebra() {
    assert_eq!(output("夫陽陰中無陰乎書之"), vec!["false"]);
    assert_eq!(output("夫陽陰中有陽乎書之"), vec!["true"]);
    assert_eq!(output("夫陽陽中無陰乎書之"), vec!["true"]);
    assert_eq!(output("夫陰陰中有陽乎書之"), vec!["false"]);
}

#[test]
fn assignment_changes_a_global() {
    assert_eq!(output("吾有一數曰一名之曰「甲」昔之「甲」者今五是矣夫「甲」書之"), vec!["5"]);
}

#[test]
fn locals_live_in_their_block() {
    let source = "若陽者 吾有一數曰七名之曰「乙」 夫「乙」書之 云云";
    assert_eq!(output(source), vec!["7"]);
}

#[test]
fn errors_name_the_line_of_the_instruction() {
    let (lines, status) = run_source("書之\n夫「甲」\n\n書之");
    assert_eq!(status, InterpretStatus::RuntimeError);
    assert_eq!(lines, vec!["", "[line 2] error: undefined variable 甲"]);
}

#[test]
fn runtime_errors_end_the_run() {
    let (lines, status) = run_source("夫「甲」書之");
    assert_eq!(status, InterpretStatus::RuntimeError);
    assert_eq!(lines, vec!["[line 1] error: undefined variable 甲"]);

    let (lines, status) = run_source("加一以陽");
    assert_eq!(status, InterpretStatus::RuntimeError);
    assert_eq!(lines, vec!["[line 1] error: Operands must be numbers."]);

    let (lines, status) = run_source("減「「a」」以「「b」」");
    assert_eq!(status, InterpretStatus::RuntimeError);
    assert_eq!(lines, vec!["[line 1] error: two string can only be added"]);

    let (lines, status) = run_source("乃止");
    assert_eq!(status, InterpretStatus::RuntimeError);
    assert_eq!(lines, vec!["[line 1] error: no loop to break."]);

    let (lines, status) = run_source("\n施一以二");
    assert_eq!(status, InterpretStatus::RuntimeError);
    assert_eq!(lines, vec!["[line 2] error: can only call functions and classes."]);

    let (lines, status) = run_source("若一小於陽者云云");
    assert_eq!(status, InterpretStatus::RuntimeError);
    assert_eq!(lines, vec!["[line 1] error: Operands must be numbers."]);
}

#[test]
fn call_checks_the_arity() {
    let source = "吾有一術名之曰「甲」欲行是術必先得曰「乙」是術曰 乃得「乙」 是謂「甲」之術也 施「甲」以一 二";
    let (lines, status) = run_source(source);
    assert_eq!(status, InterpretStatus::RuntimeError);
    assert_eq!(lines, vec!["[line 1] error: expected 1 arguments but got 2."]);
}

#[test]
fn compile_errors_are_reported() {
    let (lines, status) = run_source("乃得一");
    assert_eq!(status, InterpretStatus::CompilerError);
    assert_eq!(lines, vec!["[line 1] compiler error: cannot return from top-level code."]);

    let (lines, status) = run_source("加一陽");
    assert_eq!(status, InterpretStatus::CompilerError);
    assert_eq!(lines, vec!["[line 1] compiler error: invalid preposition, you should use '於' or '以'."]);

    let (lines, status) = run_source("加一");
    assert_eq!(status, InterpretStatus::CompilerError);
    assert_eq!(lines, vec!["[line 1] compiler error at end: Expect expression"]);

    let (lines, status) = run_source("若陽者");
    assert_eq!(status, InterpretStatus::CompilerError);
    assert_eq!(lines, vec!["[line 1] compiler error: expect end token in block statement."]);

    let (lines, status) = run_source("夫「甲");
    assert_eq!(status, InterpretStatus::CompilerError);
    assert_eq!(lines, vec!["[line 1] compiler error: unterminated identifier."]);

    let (lines, status) = run_source("吾有數");
    assert_eq!(status, InterpretStatus::CompilerError);
    assert_eq!(lines, vec!["[line 1] compiler error at end: expect a number in declaration."]);

    let (lines, status) = run_source("吾有三數曰一曰二曰三名之曰「甲」");
    assert_eq!(status, InterpretStatus::CompilerError);
    assert_eq!(lines, vec!["[line 1] compiler error: expect named all variable you declared."]);
}

#[test]
fn names_take_the_declared_values() {
    let mut vm = load("吾有二數曰一曰二名之曰「甲」名之曰「乙」").unwrap();
    let (lines, status) = drive(&mut vm);
    assert_eq!(lines, Vec::<String>::new());
    assert_eq!(status, InterpretStatus::Success);
    assert_eq!(vm.get_global("甲"), Some(Value::Number(1.0f64.to_bits())));
    assert_eq!(vm.get_global("乙"), Some(Value::Number(2.0f64.to_bits())));
    assert_eq!(vm.stack().len(), 0);
}

#[test]
fn errors_after_the_first_wait_for_the_next_statement() {
    let (lines, status) = run_source("加一陽\n加一陽");
    assert_eq!(status, InterpretStatus::CompilerError);
    assert_eq!(
        lines,
        vec![
            "[line 1] compiler error: invalid preposition, you should use '於' or '以'.",
            "[line 2] compiler error: invalid preposition, you should use '於' or '以'.",
        ]
    );

    let (lines, status) = run_source("昔之「甲」今一 書之");
    assert_eq!(status, InterpretStatus::CompilerError);
    assert_eq!(lines, vec!["[line 1] compiler error: expect '者' in assign statement"]);
}

#[test]
fn debug_mode_stops_after_every_instruction() {
    let mut vm = load("加一以二書之").unwrap();
    let mut steps = 0;
    let mut printed = vec![];
    loop {
        match vm.run(VMMode::Debug, 1000) {
            Event::Continue => steps += 1,
            Event::Arithmetic(request) => {
                assert_eq!(request.op, ArithmeticOp::Add);
                assert_eq!(f64::from_bits(request.left), 1.0);
                assert_eq!(f64::from_bits(request.right), 2.0);
                assert!(vm.resume(answer(&request)));
            }
            Event::Print(pieces) => printed.push(pieces.iter().map(piece).collect::<Vec<String>>()),
            Event::Done(status) => {
                assert_eq!(status, InterpretStatus::Success);
                break;
            }
            Event::Error { .. } => panic!("unexpected error"),
        }
    }
    assert_eq!(steps, 3);
    assert_eq!(printed, vec![vec!["3".to_string()]]);
    assert!(!vm.resume(0));
}

#[test]
fn lines_are_joined_with_single_spaces() {
    assert_eq!(join_line(&vec![]), "");
    assert_eq!(join_line(&vec!["a".to_string()]), "a");
    assert_eq!(join_line(&vec!["a".to_string(), "".to_string(), "b c".to_string()]), "a  b c");
    assert_eq!(render_error(12, "no loop to break."), "[line 12] error: no loop to break.");
}
