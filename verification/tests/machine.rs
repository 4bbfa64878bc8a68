use wyw::interner::StrId;
use wyw::interpreter::{CallFrame, InterpretStatus, Runtime};
use wyw::machine::{ArithmeticOp, Request};
use wyw::object::Function;
use wyw::opcode;
use wyw::value::Value;
use wyw::vm::{Event, Printed, VMMode, VM};

fn number(x: f64) -> Value {
    Value::Number(x.to_bits())
}

fn function(name: &str, arity: usize, code: &[u8], constants: &[Value]) -> Function {
    let mut function = Function::new();
    function.set_name(name.to_string());
    function.add_arity(arity);
    for (index, byte) in code.iter().enumerate() {
        function.chunk_mut().write(*byte, index / 4 + 1);
    }
    for constant in constants {
        function.chunk_mut().add_constant(*constant);
    }
    function
}

fn machine(code: &[u8], constants: &[Value]) -> VM {
    let mut runtime = Runtime::new();
    let script = runtime.add_closure(function("", 0, code, constants));
    let mut vm = VM::new(runtime);
    vm.setup_first_frame(script);
    vm
}

fn texts(pieces: &Vec<Printed>) -> Vec<String> {
    pieces
        .iter()
        .map(|piece| match piece {
            Printed::Text(text) => text.clone(),
            Printed::Number(bits) => format!("{}", f64::from_bits(*bits)),
        })
        .collect()
}

fn step_continue(vm: &mut VM) {
    match vm.step() {
        Event::Continue => {}
        other => panic!("unexpected event {:?}", other),
    }
}

fn step_error(vm: &mut VM) -> (usize, String) {
    match vm.step() {
        Event::Error { line, message } => (line, message),
        other => panic!("unexpected event {:?}", other),
    }
}

#[test]
fn pushes_and_pops() {
    let mut vm = machine(
        &[opcode::NIL, opcode::TRUE, opcode::FALSE, opcode::CONSTANT, 0, 0, 0, 0, opcode::POP, opcode::CONSTANT, 9, 0, 0, 0],
        &[number(2.5)],
    );
    step_continue(&mut vm);
    step_continue(&mut vm);
    step_continue(&mut vm);
    step_continue(&mut vm);
    assert_eq!(
        *vm.stack(),
        vec![Value::Closure(0), Value::Nil, Value::Bool(true), Value::Bool(false), number(2.5)]
    );
    step_continue(&mut vm);
    assert_eq!(vm.stack().len(), 4);
    // a constant that the pool does not have is not pushed
    step_continue(&mut vm);
    assert_eq!(vm.stack().len(), 4);
    assert_eq!(vm.ip(), 14);
}

#[test]
fn arithmetic_asks_the_host() {
    for (op, expected) in [
        (opcode::ADD, ArithmeticOp::Add),
        (opcode::SUBTRACT, ArithmeticOp::Subtract),
        (opcode::MULTIPLY, ArithmeticOp::Multiply),
    ] {
        let code = [opcode::CONSTANT, 0, 0, 0, 0, opcode::CONSTANT, 1, 0, 0, 0, op, opcode::PREPOSITION_LEFT];
        let mut vm = machine(&code, &[number(7.0), number(2.0)]);
        step_continue(&mut vm);
        step_continue(&mut vm);
        match vm.step() {
            Event::Arithmetic(request) => {
                assert_eq!(request, Request { op: expected, left: 2.0f64.to_bits(), right: 7.0f64.to_bits() })
            }
            other => panic!("unexpected event {:?}", other),
        }
        // the machine waits
        match vm.step() {
            Event::Arithmetic(_) => {}
            other => panic!("unexpected event {:?}", other),
        }
        assert_eq!(vm.stack().len(), 3);
        assert!(vm.resume(42.0f64.to_bits()));
        assert_eq!(*vm.stack(), vec![Value::Closure(0), number(42.0)]);

        let code = [opcode::CONSTANT, 0, 0, 0, 0, opcode::CONSTANT, 1, 0, 0, 0, op, opcode::PREPOSITION_RIGHT];
        let mut vm = machine(&code, &[number(7.0), number(2.0)]);
        step_continue(&mut vm);
        step_continue(&mut vm);
        match vm.step() {
            Event::Arithmetic(request) => {
                assert_eq!(request, Request { op: expected, left: 7.0f64.to_bits(), right: 2.0f64.to_bits() })
            }
            other => panic!("unexpected event {:?}", other),
        }
    }
}

#[test]
fn arithmetic_errors() {
    let mut vm = machine(&[opcode::ADD, opcode::PREPOSITION_LEFT], &[]);
    assert_eq!(step_error(&mut vm), (1, "stack underflow.".to_string()));
    assert_eq!(vm.stack().len(), 0);
    match vm.step() {
        Event::Done(InterpretStatus::RuntimeError) => {}
        other => panic!("unexpected event {:?}", other),
    }

    let mut vm = machine(&[opcode::NIL, opcode::NIL, opcode::ADD, opcode::PREPOSITION_LEFT], &[]);
    step_continue(&mut vm);
    step_continue(&mut vm);
    assert_eq!(step_error(&mut vm), (1, "Operands must be numbers.".to_string()));

    let code = [opcode::CONSTANT, 0, 0, 0, 0, opcode::CONSTANT, 0, 0, 0, 0, opcode::ADD, 77];
    let mut vm = machine(&code, &[number(1.0)]);
    step_continue(&mut vm);
    step_continue(&mut vm);
    assert_eq!(step_error(&mut vm), (3, "invalid preposition.".to_string()));

    let code = [opcode::CONSTANT, 0, 0, 0, 0, opcode::CONSTANT, 0, 0, 0, 0, opcode::ADD, opcode::PREPOSITION_LEFT];
    let mut vm = machine(&code, &[Value::String(StrId(9))]);
    step_continue(&mut vm);
    step_continue(&mut vm);
    assert_eq!(step_error(&mut vm), (3, "not find this string in interner.".to_string()));
}

#[test]
fn logic_and_comparison() {
    let mut vm = machine(&[opcode::TRUE, opcode::INVERT, opcode::NIL, opcode::INVERT], &[]);
    step_continue(&mut vm);
    step_continue(&mut vm);
    assert_eq!(vm.stack().last(), Some(&Value::Bool(false)));
    step_continue(&mut vm);
    step_continue(&mut vm);
    assert_eq!(vm.stack().last(), Some(&Value::Bool(false)));

    let mut vm = machine(&[opcode::FALSE, opcode::INVERT], &[]);
    step_continue(&mut vm);
    step_continue(&mut vm);
    assert_eq!(vm.stack().last(), Some(&Value::Bool(true)));

    let code = [opcode::CONSTANT, 0, 0, 0, 0, opcode::CONSTANT, 1, 0, 0, 0, opcode::LESS];
    let mut vm = machine(&code, &[number(1.0), number(2.0)]);
    vm.run(VMMode::Run, 3);
    assert_eq!(*vm.stack(), vec![Value::Closure(0), Value::Bool(true)]);

    let code = [opcode::CONSTANT, 0, 0, 0, 0, opcode::CONSTANT, 1, 0, 0, 0, opcode::GREATER];
    let mut vm = machine(&code, &[number(1.0), number(2.0)]);
    vm.run(VMMode::Run, 3);
    assert_eq!(*vm.stack(), vec![Value::Closure(0), Value::Bool(false)]);

    let code = [opcode::CONSTANT, 0, 0, 0, 0, opcode::CONSTANT, 1, 0, 0, 0, opcode::EQUAL_EQUAL];
    let mut vm = machine(&code, &[number(1.0), number(2.0)]);
    vm.run(VMMode::Run, 3);
    assert_eq!(*vm.stack(), vec![Value::Closure(0), Value::Bool(false)]);

    let mut vm = machine(&[opcode::TRUE, opcode::FALSE, opcode::AND], &[]);
    vm.run(VMMode::Run, 3);
    assert_eq!(*vm.stack(), vec![Value::Closure(0), Value::Bool(false)]);

    let mut vm = machine(&[opcode::TRUE, opcode::FALSE, opcode::OR], &[]);
    vm.run(VMMode::Run, 3);
    assert_eq!(*vm.stack(), vec![Value::Closure(0), Value::Bool(true)]);

    let mut vm = machine(&[opcode::POP, opcode::INVERT], &[]);
    step_continue(&mut vm);
    assert_eq!(step_error(&mut vm), (1, "not match expression after 變".to_string()));
}

#[test]
fn print_stops_at_the_nearest_function() {
    let mut vm = machine(&[opcode::NIL, opcode::TRUE, opcode::CONSTANT, 0, 0, 0, 0, opcode::PRINT, opcode::PRINT], &[number(0.5)]);
    vm.run(VMMode::Run, 3);
    match vm.step() {
        Event::Print(pieces) => assert_eq!(texts(&pieces), vec!["undefined", "true", "0.5"]),
        other => panic!("unexpected event {:?}", other),
    }
    assert_eq!(*vm.stack(), vec![Value::Closure(0)]);
    match vm.step() {
        Event::Print(pieces) => assert_eq!(pieces.len(), 0),
        other => panic!("unexpected event {:?}", other),
    }
    assert_eq!(vm.format_value(&Value::Closure(0)).map(|p| texts(&vec![p])), Some(vec!["<fn> <global context>".to_string()]));
    assert!(vm.format_value(&Value::Closure(5)).is_none());
    assert!(vm.format_value(&Value::String(StrId(0))).is_none());
}

#[test]
fn globals_are_defined_read_and_set() {
    let mut runtime = Runtime::new();
    let name = runtime.interner_mut().intern("甲");
    let code = [
        opcode::TRUE,
        opcode::NIL,
        opcode::DEFINE_GLOBAL, 0, 0, 0, 0, 1,
        opcode::GET_GLOBAL, 0, 0, 0, 0,
        opcode::FALSE,
        opcode::SET_GLOBAL, 0, 0, 0, 0,
        opcode::GET_GLOBAL, 1, 0, 0, 0,
    ];
    let script = runtime.add_closure(function("", 0, &code, &[Value::String(name), Value::Nil]));
    let mut vm = VM::new(runtime);
    vm.setup_first_frame(script);
    assert_eq!(vm.read_str(0), Some(name));
    assert_eq!(vm.read_string(0), Some("甲".to_string()));
    assert_eq!(vm.read_str(1), None);
    assert_eq!(vm.read_str(2), None);
    vm.run(VMMode::Run, 3);
    assert_eq!(vm.get_global("甲"), Some(Value::Bool(true)));
    step_continue(&mut vm);
    assert_eq!(*vm.stack(), vec![Value::Closure(0), Value::Bool(true), Value::Nil, Value::Bool(true)]);
    vm.run(VMMode::Run, 2);
    assert_eq!(vm.get_global("甲"), Some(Value::Bool(false)));
    assert_eq!(vm.stack().len(), 4);
    assert_eq!(step_error(&mut vm), (5, "not find this string in interner.".to_string()));
}

#[test]
fn locals_are_defined_read_and_set() {
    let code = [
        opcode::TRUE,
        opcode::NIL,
        opcode::DEFINE_LOCAL, 1,
        opcode::DEFINE_LOCAL, 0,
        opcode::GET_LOCAL, 0, 0, 0, 0,
        opcode::FALSE,
        opcode::SET_LOCAL, 1, 0, 0, 0,
        opcode::GET_LOCAL, 7, 0, 0, 0,
        opcode::POP_LOCAL,
        opcode::DEFINE_LOCAL, 200,
    ];
    let mut vm = machine(&code, &[]);
    vm.run(VMMode::Run, 4);
    assert_eq!(*vm.locals(), vec![Value::Bool(true), Value::Nil]);
    assert_eq!(vm.normalize_local_slot(1), 1);
    step_continue(&mut vm);
    assert_eq!(vm.stack().last(), Some(&Value::Bool(true)));
    vm.run(VMMode::Run, 2);
    assert_eq!(*vm.locals(), vec![Value::Bool(true), Value::Bool(false)]);
    let depth = vm.stack().len();
    step_continue(&mut vm);
    assert_eq!(vm.stack().len(), depth);
    step_continue(&mut vm);
    assert_eq!(*vm.locals(), vec![Value::Bool(true)]);
    assert_eq!(step_error(&mut vm).1, "stack underflow.");
}

#[test]
fn jumps_move_the_instruction_pointer() {
    let code = [
        opcode::FALSE,
        opcode::JUMP_IF_FALSE, 1, 0, 0, 0,
        opcode::NIL,
        opcode::TRUE,
        opcode::JUMP_IF_FALSE, 1, 0, 0, 0,
        opcode::JUMP, 2, 0, 0, 0,
        opcode::NIL,
        opcode::NIL,
        opcode::LOOP, 5, 0, 0, 0,
    ];
    let mut vm = machine(&code, &[]);
    vm.run(VMMode::Run, 2);
    assert_eq!(vm.ip(), 7);
    assert_eq!(vm.offset(), 7);
    vm.run(VMMode::Run, 2);
    assert_eq!(vm.ip(), 13);
    step_continue(&mut vm);
    assert_eq!(vm.ip(), 20);
    step_continue(&mut vm);
    assert_eq!(vm.ip(), 19);
    assert_eq!(*vm.stack(), vec![Value::Closure(0), Value::Bool(false), Value::Bool(true)]);

    let mut vm = machine(&[opcode::LOOP, 5, 0, 0, 0], &[]);
    assert_eq!(step_error(&mut vm).1, "jump out of range.");
}

#[test]
fn break_jumps_to_the_recorded_target() {
    let code = [
        opcode::RECORD_BREAK, 8, 0, 0, 0,
        opcode::TRUE,
        opcode::BREAK,
        opcode::NIL,
        opcode::LOOP, 4, 0, 0, 0,
        opcode::DISCARD_BREAK,
        opcode::BREAK,
    ];
    let mut vm = machine(&code, &[]);
    vm.run(VMMode::Run, 3);
    assert_eq!(vm.ip(), 13);
    assert_eq!(*vm.stack(), vec![Value::Closure(0), Value::Bool(true)]);
    step_continue(&mut vm);
    assert_eq!(step_error(&mut vm), (4, "no loop to break.".to_string()));
}

#[test]
fn call_and_return_balance_the_stacks() {
    let mut runtime = Runtime::new();
    // the callee moves its argument into a local and returns true
    let callee_code = [opcode::DEFINE_LOCAL, 0, opcode::NIL, opcode::NIL, opcode::TRUE, opcode::RETURN];
    let callee = runtime.add_closure(function("乙", 1, &callee_code, &[]));
    let script_code = [
        opcode::NIL,
        opcode::DEFINE_LOCAL, 0,
        opcode::CONSTANT, 0, 0, 0, 0,
        opcode::FALSE,
        opcode::CALL, 1, 0, 0, 0,
        opcode::RETURN,
    ];
    let script = runtime.add_closure(function("", 0, &script_code, &[Value::Function(callee)]));
    assert!(runtime.has_closure(script));
    assert!(!runtime.has_closure(2));
    let mut vm = VM::new(runtime);
    vm.setup_first_frame(script);
    vm.run(VMMode::Run, 4);
    let stack_at_call = vm.stack().clone();
    let locals_at_call = vm.locals().clone();
    assert_eq!(stack_at_call, vec![Value::Closure(1), Value::Nil, Value::Function(0), Value::Bool(false)]);
    step_continue(&mut vm);
    assert_eq!(vm.runtime().frames().len(), 2);
    assert_eq!(vm.frame().slot_begin(), 2);
    assert_eq!(vm.frame().local_slot_begin(), 1);
    assert_eq!(vm.frame().closure_id(), callee);
    assert_eq!(vm.ip(), 0);
    assert_eq!(vm.get_closure().function().name(), "乙");
    vm.run(VMMode::Run, 4);
    assert_eq!(vm.locals().len(), 2);
    assert_eq!(vm.stack().len(), 7);
    step_continue(&mut vm);
    assert_eq!(vm.runtime().frames().len(), 1);
    assert_eq!(*vm.stack(), vec![Value::Closure(1), Value::Nil, Value::Bool(true)]);
    assert_eq!(*vm.locals(), locals_at_call);
    assert_eq!(vm.ip(), 14);
    match vm.step() {
        Event::Done(InterpretStatus::Success) => {}
        other => panic!("unexpected event {:?}", other),
    }
    assert_eq!(vm.stack().len(), 0);
    assert_eq!(vm.locals().len(), 0);
    assert_eq!(vm.runtime().frames().len(), 0);
}

#[test]
fn call_errors() {
    let mut vm = machine(&[opcode::CALL, 3, 0, 0, 0], &[]);
    assert_eq!(step_error(&mut vm).1, "stack underflow.");

    let mut vm = machine(&[opcode::NIL, opcode::CALL, 0, 0, 0, 0], &[]);
    step_continue(&mut vm);
    assert_eq!(step_error(&mut vm).1, "can only call functions and classes.");

    let mut vm = machine(&[opcode::CONSTANT, 0, 0, 0, 0, opcode::CALL, 0, 0, 0, 0], &[Value::Function(8)]);
    step_continue(&mut vm);
    assert_eq!(step_error(&mut vm).1, "can only call functions and classes.");

    let mut vm = machine(&[opcode::NIL, opcode::CALL, 1, 0, 0, 0], &[]);
    step_continue(&mut vm);
    assert_eq!(step_error(&mut vm).1, "expected 0 arguments but got 1.");
}

#[test]
fn the_machine_reports_where_it_cannot_read() {
    let mut vm = machine(&[], &[]);
    assert_eq!(step_error(&mut vm), (0, "instruction pointer out of range.".to_string()));

    let mut vm = machine(&[opcode::CONSTANT, 0, 0], &[]);
    assert_eq!(step_error(&mut vm), (1, "truncated instruction.".to_string()));

    let mut vm = machine(&[200, 201], &[]);
    step_continue(&mut vm);
    step_continue(&mut vm);
    assert_eq!(vm.ip(), 2);
}

#[test]
fn run_uses_its_fuel() {
    let mut vm = machine(&[opcode::NIL, opcode::NIL, opcode::NIL, opcode::RETURN], &[]);
    match vm.run(VMMode::Run, 0) {
        Event::Continue => {}
        other => panic!("unexpected event {:?}", other),
    }
    assert_eq!(vm.ip(), 0);
    match vm.run(VMMode::Run, 2) {
        Event::Continue => {}
        other => panic!("unexpected event {:?}", other),
    }
    assert_eq!(vm.ip(), 2);
    match vm.run(VMMode::Debug, 2) {
        Event::Continue => {}
        other => panic!("unexpected event {:?}", other),
    }
    assert_eq!(vm.ip(), 3);
    match vm.run(VMMode::Run, 10) {
        Event::Done(InterpretStatus::Success) => {}
        other => panic!("unexpected event {:?}", other),
    }
    vm.free();
    assert_eq!(vm.stack().len(), 0);
}

#[test]
fn frames_hold_their_place() {
    let mut frame = CallFrame::new(3, 1, 4, 5);
    assert_eq!((frame.ip(), frame.closure_id(), frame.slot_begin(), frame.local_slot_begin()), (3, 1, 4, 5));
    frame.set_ip(10);
    frame.add_ip(2);
    frame.sub_ip(5);
    assert_eq!(frame.ip(), 7);
    let mut runtime = Runtime::new();
    let id = runtime.add_closure(Function::new());
    assert_eq!(runtime.begin_frame(id, 1, 2), id);
    assert_eq!(runtime.current_frame().slot_begin(), 1);
    runtime.current_frame_mut().set_ip(9);
    assert_eq!(runtime.current_frame().ip(), 9);
    assert_eq!(runtime.current_chunk().len(), 0);
    runtime.exit_frame();
    runtime.exit_frame();
    assert_eq!(runtime.frames().len(), 0);
    assert!(runtime.has_room());
    assert!(!runtime.interner().knows("x"));
    runtime.free();
}

#[test]
fn free_object_releases_the_strings() {
    let mut runtime = Runtime::new();
    let id = runtime.interner_mut().intern("甲");
    assert!(runtime.interner().has_id(id));
    wyw::memory::free_object(&mut runtime);
    assert!(!runtime.interner().has_id(id));
    assert_eq!(id, StrId(0));
}

#[test]
fn instruction_pointer_moves() {
    let mut vm = machine(&[opcode::NIL, opcode::NIL, opcode::NIL], &[]);
    vm.set_ip(1);
    vm.add_ip(2);
    assert_eq!(vm.ip(), 3);
    vm.sub_ip(3);
    assert_eq!(vm.ip(), 0);
    assert_eq!(vm.chunk().len(), 3);
    assert_eq!(vm.peek(0), Some(&Value::Closure(0)));
    assert_eq!(vm.peek(1), None);
}
