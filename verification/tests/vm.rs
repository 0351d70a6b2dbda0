use rox::chunk::{Chunk, Constant};
use rox::compiler::Parser;
use rox::gc::Gc;
use rox::objects::{Obj, ObjClosure, ObjFunction, ObjNative, ObjUpValue};
use rox::op_code::OpCode;
use rox::value::Value;
use rox::vm::{CallFrame, Fault, InterpretError, RuntimeError, Signal, Vm, FRAME_MAX};
use std::rc::Rc;

fn number(n: f64) -> Value {
    Value::Number(n.to_bits())
}

fn text(bytes: &[u8]) -> String {
    String::from_utf8_lossy(bytes).into_owned()
}

fn arithmetic(op: OpCode, lhs: u64, rhs: u64) -> u64 {
    let (a, b) = (f64::from_bits(lhs), f64::from_bits(rhs));
    let result = match op {
        OpCode::Add => a + b,
        OpCode::Subtract => a - b,
        OpCode::Multiply => a * b,
        OpCode::Divide => a / b,
        _ => f64::NAN,
    };
    result.to_bits()
}

// Does for the machine what it asks for, until the script is done or fails.
// Returns the lines printed and the error, if any.
fn drive(vm: &mut Vm, first: Signal) -> (Vec<String>, Option<RuntimeError>) {
    let mut lines = Vec::new();
    let mut signal = first;
    let mut largest = 0;
    loop {
        largest = largest.max(vm.heap.bytes_allocated());
        match signal {
            Signal::Continue => {}
            Signal::Done => return (lines, None),
            Signal::Print { text: shown, number } => {
                let mut line = text(&shown);
                if let Some(bits) = number {
                    line.push_str(&format!("{}", f64::from_bits(bits)));
                }
                lines.push(line);
            }
            Signal::Arithmetic { op, lhs, rhs } => vm.push(Value::Number(arithmetic(op, lhs, rhs))),
            Signal::Numeral(numeral) => {
                let parsed: f64 = text(&numeral).parse().expect("a numeral");
                vm.push(number(parsed));
            }
            Signal::Native { name, args } => {
                assert_eq!(name, b"clock".to_vec());
                vm.push(number(1000.0 + args.len() as f64));
            }
            Signal::Fault(error) => return (lines, Some(error)),
        }
        signal = vm.run(10_000);
    }
}

fn run(source: &str) -> (Vec<String>, Option<RuntimeError>) {
    let mut vm = Vm::new();
    vm.initialize();
    let first = vm.interpret(source, 10_000).expect("the script compiles");
    drive(&mut vm, first)
}

fn prints(source: &str) -> Vec<String> {
    let (lines, error) = run(source);
    assert!(error.is_none(), "{:?}", error);
    lines
}

fn fails(source: &str) -> RuntimeError {
    run(source).1.expect("the script fails")
}

// A machine that is about to run the given instructions as a script.
fn machine(code: Vec<OpCode>, constants: Vec<Constant>) -> Vm {
    let mut function = ObjFunction::new(b"test".to_vec());
    let mut chunk = Chunk::new();
    for (at, op) in code.into_iter().enumerate() {
        chunk.write_to_chunk(op, at + 1);
    }
    for constant in constants.into_iter() {
        chunk.push_constant(constant);
    }
    function.chunk = chunk;
    let mut vm = Vm::new();
    assert!(matches!(vm.load(function), Signal::Continue));
    vm
}

#[test]
fn test_push_pop() {
    let mut vm = Vm::new();
    vm.initialize();
    vm.stack.push(number(1.0));
    vm.stack.push(number(2.0));
    vm.stack.push(number(3.0));

    assert_eq!(vm.stack.pop(), Some(number(3.0)));
    assert_eq!(vm.stack.pop(), Some(number(2.0)));
    assert_eq!(vm.stack.pop(), Some(number(1.0)));
}

// The binary operation hands the arithmetic out; the helper does it and
// pushes the result, as the embedding program does.
fn binary(vm: &mut Vm, code: OpCode) {
    match vm.binary_operation(code) {
        Signal::Continue => {}
        Signal::Arithmetic { op, lhs, rhs } => vm.push(Value::Number(arithmetic(op, lhs, rhs))),
        other => panic!("{:?}", other),
    }
}

#[test]
fn test_add() {
    let mut vm = Vm::new();
    vm.initialize();
    vm.stack.push(number(1.0));
    vm.stack.push(number(2.0));
    vm.stack.push(number(3.0));

    binary(&mut vm, OpCode::Add);
    assert_eq!(vm.stack.pop(), Some(number(5.0)));
}

#[test]
fn test_subtract() {
    let mut vm = Vm::new();
    vm.initialize();
    vm.stack.push(number(1.0));
    vm.stack.push(number(2.0));
    vm.stack.push(number(3.0));

    binary(&mut vm, OpCode::Subtract);
    assert_eq!(vm.stack.pop(), Some(number(-1.0)));
}

#[test]
fn test_multiply() {
    let mut vm = Vm::new();
    vm.initialize();
    vm.stack.push(number(1.0));
    vm.stack.push(number(2.0));
    vm.stack.push(number(3.0));

    binary(&mut vm, OpCode::Multiply);
    assert_eq!(vm.stack.pop(), Some(number(6.0)));
}

#[test]
fn test_divide() {
    let mut vm = Vm::new();
    vm.initialize();
    vm.stack.push(number(2.0));
    vm.stack.push(number(3.0));

    binary(&mut vm, OpCode::Divide);
    assert_eq!(vm.stack.pop(), Some(number(0.6666666666666666)));
}

#[test]
fn test_true() {
    let mut vm = Vm::new();
    vm.initialize();
    vm.stack.push(Value::Bool(true));
    assert_eq!(vm.stack.pop(), Some(Value::Bool(true)));
}

#[test]
fn test_false() {
    let mut vm = Vm::new();
    vm.initialize();
    vm.stack.push(Value::Bool(false));
    assert_eq!(vm.stack.pop(), Some(Value::Bool(false)));
}

#[test]
fn vm_test_string() {
    let mut vm = Vm::new();
    vm.initialize();
    let roots = vm.gather_roots();
    let first = vm.heap.allocate(Obj::Str("hello".as_bytes().to_vec()), &roots).unwrap();
    let second = vm.heap.allocate(Obj::Str("hello".as_bytes().to_vec()), &roots).unwrap();
    vm.stack.push(Value::String(first));
    let popped = vm.stack.pop().unwrap();
    assert!(vm.values_equal(popped, Value::String(second)));
}

#[test]
fn test_less() {
    let mut vm = Vm::new();
    vm.initialize();
    vm.stack.push(number(1.0));
    vm.stack.push(number(2.0));
    vm.stack.push(number(3.0));

    binary(&mut vm, OpCode::Less);
    assert_eq!(vm.stack.pop(), Some(Value::Bool(true)));
}

#[test]
fn test_greater() {
    let mut vm = Vm::new();
    vm.initialize();
    vm.stack.push(number(1.0));
    vm.stack.push(number(2.0));
    vm.stack.push(number(3.0));

    binary(&mut vm, OpCode::Greater);
    assert_eq!(vm.stack.pop(), Some(Value::Bool(false)));
}

#[test]
fn scenario_grouped_arithmetic() {
    assert_eq!(prints("print (1 + 2) * 3;"), vec!["9"]);
}

#[test]
fn scenario_shadowing_in_a_block() {
    assert_eq!(
        prints("var a = 1; { var a = 2; print a; } print a;"),
        vec!["2", "1"]
    );
}

#[test]
fn scenario_for_loop_sums() {
    assert_eq!(
        prints("var n = 0; for (var i = 0; i < 5; i = i + 1) { n = n + i; } print n;"),
        vec!["10"]
    );
}

#[test]
fn scenario_function_call() {
    assert_eq!(prints("fun add(a,b){return a+b;} print add(2,3);"), vec!["5"]);
}

#[test]
fn scenario_closure_reads_enclosing_local() {
    assert_eq!(
        prints("fun outer(){ var x = \"outer\"; fun inner(){ print x; } inner(); } outer();"),
        vec!["outer"]
    );
}

#[test]
fn scenario_counter_closure() {
    assert_eq!(
        prints(
            "fun make(){ var x = 0; fun inc(){ x = x + 1; return x; } return inc; } var c = make(); print c(); print c();"
        ),
        vec!["1", "2"]
    );
}

#[test]
fn arithmetic_prints_the_double_result() {
    let pairs = [
        (1.5, 2.25),
        (0.1, 0.2),
        (123456789.0, 987654321.5),
        (-7.0, 2.0),
        (1.0, 0.0),
        (3.0, -0.5),
        (0.0, 0.0),
    ];
    for (a, b) in pairs.iter() {
        for (symbol, expected) in [("+", a + b), ("-", a - b), ("*", a * b), ("/", a / b)].iter() {
            // Numerals carry no sign: a negative operand is written as a negation.
            let show = |x: &f64| {
                if *x < 0.0 { format!("(-{:?})", -x) } else { format!("{:?}", x) }
            };
            let source = format!("print {} {} {};", show(a), symbol, show(b));
            let expected: f64 = *expected;
            assert_eq!(prints(&source), vec![format!("{}", expected)], "{}", source);
        }
    }
}

#[test]
fn and_evaluates_its_right_operand_only_after_a_truthy_left_one() {
    let script = |left: &str| {
        format!(
            "fun right() {{ print \"evaluated\"; return true; }} print {} and right();",
            left
        )
    };
    assert_eq!(prints(&script("false")), vec!["false"]);
    assert_eq!(prints(&script("nil")), vec!["nil"]);
    assert_eq!(
        prints(&script("true")),
        vec!["evaluated", "true"]
    );
    assert_eq!(
        prints(&script("0")),
        vec!["evaluated", "true"]
    );
}

#[test]
fn or_evaluates_its_right_operand_only_after_a_falsey_left_one() {
    let script = |left: &str| {
        format!("fun right() {{ print \"evaluated\"; return 7; }} print {} or right();", left)
    };
    assert_eq!(prints(&script("true")), vec!["true"]);
    assert_eq!(prints(&script("\"\"")), vec![""]);
    assert_eq!(
        prints(&script("false")),
        vec!["evaluated", "7"]
    );
    assert_eq!(prints(&script("nil")), vec!["evaluated", "7"]);
}

#[test]
fn closure_sees_the_variable_change_before_and_after_the_function_returns() {
    let lines = prints(
        "fun outer() { var x = 1; fun get() { return x; } fun set(v) { x = v; } \
         x = 2; print get(); set(3); print x; \
         fun both() { set(10); return get(); } return both; } \
         var both = outer(); print both();",
    );
    assert_eq!(lines, vec!["2", "3", "10"]);
}

#[test]
fn closures_over_the_same_local_share_it() {
    let lines = prints(
        "var get; var set; \
         fun make() { var shared = \"first\"; fun g() { return shared; } fun s(v) { shared = v; } get = g; set = s; } \
         make(); print get(); set(\"second\"); print get();",
    );
    assert_eq!(lines, vec!["first", "second"]);
}

#[test]
fn each_loop_turn_does_not_share_a_block_local() {
    let lines = prints(
        "var first; var second; \
         for (var i = 0; i < 2; i = i + 1) { var j = i * 10; fun f() { return j; } if (i == 0) first = f; else second = f; } \
         print first(); print second();",
    );
    assert_eq!(lines, vec!["0", "10"]);
}

#[test]
fn a_variable_of_a_block_is_gone_behind_the_block() {
    let function = Parser::new(b"{ var a = 1; } print a;").compile().expect("the script compiles");
    assert_eq!(
        function.chunk.code,
        vec![
            OpCode::Constant(0),
            OpCode::Pop,
            OpCode::GetGlobal(1),
            OpCode::Print,
            OpCode::Nil,
            OpCode::Return,
        ]
    );
    let error = fails("{ var a = 1; } print a;");
    assert_eq!(error.fault, Fault::UndefinedVariable);
    assert_eq!(text(&error.message()), "undefined variable 'a'");
    assert_eq!(
        prints("var a = \"outside\"; { var a = \"inside\"; print a; } print a;"),
        vec!["inside", "outside"]
    );
}

#[test]
fn conditional_jump_leaves_the_value_and_jumps_on_a_falsey_one() {
    let mut vm = machine(
        vec![OpCode::False, OpCode::JumpIfFalse(2), OpCode::Pop, OpCode::True, OpCode::Return],
        vec![],
    );
    assert!(matches!(vm.step(), Signal::Continue));
    assert!(matches!(vm.step(), Signal::Continue));
    assert_eq!(vm.frames[0].ip, 4);
    assert_eq!(vm.stack.len(), 2);
    assert_eq!(vm.stack.values[1], Value::Bool(false));
    let mut vm = machine(
        vec![OpCode::True, OpCode::JumpIfFalse(2), OpCode::Pop, OpCode::False, OpCode::Return],
        vec![],
    );
    assert!(matches!(vm.step(), Signal::Continue));
    assert!(matches!(vm.step(), Signal::Continue));
    assert_eq!(vm.frames[0].ip, 2);
    assert_eq!(vm.stack.len(), 2);
    assert_eq!(vm.stack.values[1], Value::Bool(true));
}

#[test]
fn globals_must_be_defined_before_use() {
    let error = fails("a = 1;");
    assert_eq!(error.fault, Fault::UndefinedVariable);
    assert_eq!(text(&error.message()), "undefined variable 'a'");
    let error = fails("print a;");
    assert_eq!(text(&error.headline()), "Runtime error: undefined variable 'a' [line 1]");
    assert_eq!(
        prints("var a = 1; var a = \"again\"; print a; a = 3; print a; print a = 4;"),
        vec!["again", "3", "4"]
    );
    assert_eq!(prints("var a; print a;"), vec!["nil"]);
}

#[test]
fn frames_64_run_and_65_overflow() {
    let script = |depth: usize| {
        format!("fun down(n) {{ if (n > 1) {{ down(n - 1); }} }} down({}); print \"back\";", depth)
    };
    // The script itself runs in the first frame.
    assert_eq!(prints(&script(FRAME_MAX - 1)), vec!["back"]);
    let error = fails(&script(FRAME_MAX));
    assert_eq!(error.fault, Fault::StackOverflow);
    assert_eq!(text(&error.message()), "Stack overflow!");
    assert_eq!(error.trace.len(), FRAME_MAX);
    assert_eq!(text(&error.trace[0].render()), "[line 1] in down");
    assert_eq!(text(&error.trace[FRAME_MAX - 1].render()), "[line 1] in script");
}

#[test]
fn runtime_errors() {
    let error = fails("1 + true;");
    assert_eq!(error.fault, Fault::OperandsMustBeNumbersOrStrings);
    assert_eq!(text(&error.message()), "operands must be two numbers or two strings");
    for source in ["1 - \"a\";", "1 * nil;", "true / 2;", "1 < \"a\";", "\"a\" > \"b\";", "\"a\" - \"b\";"].iter() {
        let error = fails(source);
        assert_eq!(error.fault, Fault::OperandsMustBeNumbers, "{}", source);
        assert_eq!(text(&error.message()), "operands must be two numbers");
    }
    let error = fails("print -\"a\";");
    assert_eq!(error.fault, Fault::OperandMustBeNumber);
    assert_eq!(text(&error.message()), "operand must be a number");
    let error = fails("var a = 1; a();");
    assert_eq!(error.fault, Fault::NotCallable);
    assert_eq!(text(&error.message()), "Can only call functions and classes.");
    let error = fails("fun f(a, b) {} \n f(1);");
    assert_eq!(error.fault, Fault::WrongArity { expected: 2, got: 1 });
    assert_eq!(text(&error.message()), "Expected 2 arguments but got 1.");
    assert_eq!(error.line, 2);
}

#[test]
fn runtime_error_reports_the_calls_in_progress_and_resets_the_machine() {
    let mut vm = Vm::new();
    let source = "fun inner() {\n  return 1 + nil;\n}\nfun outer() {\n  inner();\n}\nouter();\n";
    let function = Parser::new(source.as_bytes()).compile().unwrap();
    let first = vm.load(function);
    let (lines, error) = drive(&mut vm, first);
    let error = error.unwrap();
    assert!(lines.is_empty());
    assert_eq!(error.line, 2);
    let trace: Vec<String> = error.trace.iter().map(|entry| text(&entry.render())).collect();
    assert_eq!(trace, vec!["[line 2] in inner", "[line 5] in outer", "[line 7] in script"]);
    assert_eq!(vm.stack.len(), 0);
    assert!(vm.frames.is_empty());
    assert!(vm.open_values.is_empty());
    // The globals survive, and the machine runs the next script.
    let function = Parser::new(b"print outer == outer;").compile().unwrap();
    let first = vm.load(function);
    assert_eq!(drive(&mut vm, first).0, vec!["true"]);
}

#[test]
fn print_shows_each_kind_of_value() {
    assert_eq!(
        prints("print nil; print true; print false; print 1.5; print \"text\"; print 10;"),
        vec![
            "nil",
            "true",
            "false",
            "1.5",
            "text",
            "10",
        ]
    );
    assert_eq!(prints("fun f() {} print f; print clock;"), vec!["unknown value", "unknown value"]);
}

#[test]
fn strings_concatenate_in_source_order_and_compare_by_content() {
    assert_eq!(
        prints("var a = \"left\"; var b = \"right\"; print a + b; print a + b == \"leftright\"; print a == b;"),
        vec!["leftright", "true", "false"]
    );
}

#[test]
fn equality_of_values() {
    assert_eq!(
        prints(
            "print nil == nil; print nil == false; print 1 == 1; print 1 == 2; print 0 == -0; \
             print true == true; print \"1\" == 1; print 0/0 == 0/0; fun f() {} fun g() {} \
             print f == f; print f == g; print clock == clock;"
        ),
        vec![
            "true",
            "false",
            "true",
            "false",
            "true",
            "true",
            "false",
            "false",
            "true",
            "false",
            "true",
        ]
    );
}

#[test]
fn comparisons_of_numbers() {
    assert_eq!(
        prints("print 1 < 2; print 2 < 1; print 2 <= 2; print 2 >= 3; print -1 > -2; print 0/0 < 1; print 0/0 >= 1;"),
        vec![
            "true",
            "false",
            "true",
            "false",
            "true",
            "false",
            "true",
        ]
    );
}

#[test]
fn native_function_is_handed_to_the_embedding_program() {
    assert_eq!(prints("print clock();"), vec!["1000"]);
    assert_eq!(prints("print clock(1, 2) + 1;"), vec!["1003"]);
    let mut vm = Vm::new();
    assert!(vm.define_native(ObjNative::new(b"clock".to_vec())));
    let function = Parser::new(b"clock(nil, true);").compile().unwrap();
    let mut signal = vm.load(function);
    while matches!(signal, Signal::Continue) {
        signal = vm.step();
    }
    match signal {
        Signal::Native { name, args } => {
            assert_eq!(name, b"clock".to_vec());
            assert_eq!(args, vec![Value::Nil, Value::Bool(true)]);
            // The callee and its arguments have left the stack.
            assert_eq!(vm.stack.len(), 1);
        }
        other => panic!("{:?}", other),
    }
}

#[test]
fn long_loops_keep_the_heap_bounded() {
    let mut vm = Vm::new();
    let source = "var kept = \"\"; \
        for (var i = 0; i < 2000; i = i + 1) { \
            var s = \"some text that is dropped right away\" + \" and more\"; \
            fun f() { return s; } \
            if (i == 1999) kept = f(); \
        } \
        print kept;";
    let function = Parser::new(source.as_bytes()).compile().unwrap();
    let mut signal = vm.load(function);
    let mut largest = 0;
    let mut lines = Vec::new();
    loop {
        largest = largest.max(vm.heap.bytes_allocated());
        match signal {
            Signal::Continue => {}
            Signal::Done => break,
            Signal::Print { text: shown, .. } => lines.push(text(&shown)),
            Signal::Arithmetic { op, lhs, rhs } => vm.push(Value::Number(arithmetic(op, lhs, rhs))),
            Signal::Numeral(numeral) => vm.push(number(text(&numeral).parse().unwrap())),
            other => panic!("{:?}", other),
        }
        signal = vm.step();
    }
    assert_eq!(lines, vec!["some text that is dropped right away and more"]);
    assert!(vm.heap.collections() > 10);
    // Each turn allocates some 300 bytes; 2000 turns without a collector
    // would charge some 600000.
    assert!(largest < 4000, "{}", largest);
    assert!(vm.heap.slots() < 100, "{}", vm.heap.slots());
}

#[test]
fn collection_keeps_what_the_machine_holds() {
    let mut vm = Vm::new();
    let source = "var g = \"global\" + \"!\"; \
        fun keep() { var captured = \"captured\" + \"!\"; fun read() { return captured; } return read; } \
        var read = keep(); \
        { var local = \"local\" + \"!\"; \
          for (var i = 0; i < 300; i = i + 1) { var garbage = \"garbage\" + \"!\"; } \
          print local; print g; print read(); }";
    let function = Parser::new(source.as_bytes()).compile().unwrap();
    let first = vm.load(function);
    let (lines, error) = drive(&mut vm, first);
    assert!(error.is_none());
    assert!(vm.heap.collections() > 0);
    assert_eq!(
        lines,
        vec!["local!", "global!", "captured!"]
    );
}

#[test]
fn roots_are_what_the_machine_holds() {
    let mut vm = Vm::new();
    vm.stack.push(Value::String(Gc { index: 40 }));
    vm.stack.push(number(1.0));
    vm.frames.push(CallFrame::new(Gc { index: 41 }));
    vm.open_values.push(Gc { index: 42 });
    let mut roots: Vec<usize> = vm.gather_roots().iter().map(|h| h.index).collect();
    roots.sort();
    // Slot 0 holds the native function `clock`, which is a global.
    assert_eq!(roots, vec![0, 40, 41, 42]);
}

#[test]
fn interpret_runs_to_the_first_signal() {
    let mut vm = Vm::new();
    assert!(matches!(vm.interpret("print 1 +;", 1000), Err(InterpretError::CompileError)));
    assert!(vm.frames.is_empty());
    assert_eq!(vm.stack.len(), 0);
    // A string is printed by the embedding program, and then the script is done.
    match vm.interpret("var a = \"forty\"; print a;", 1000) {
        Ok(Signal::Print { text: shown, number }) => {
            assert_eq!(shown, b"forty".to_vec());
            assert_eq!(number, None);
        }
        other => panic!("{:?}", other),
    }
    assert!(matches!(vm.run(1000), Signal::Done));
    assert!(vm.frames.is_empty());
    // A second script sees the globals of the first.
    let first = vm.interpret("print a;", 1000).expect("the script compiles");
    assert_eq!(drive(&mut vm, first).0, vec!["forty"]);
    assert_eq!(vm.stack.len(), 1);
    // A numeral goes to the embedding program first.
    match vm.interpret("var a = 40; print a + 2;", 1000) {
        Ok(Signal::Numeral(numeral)) => {
            assert_eq!(numeral, b"40".to_vec());
            assert_eq!(drive(&mut vm, Signal::Numeral(numeral)).0, vec!["42"]);
        }
        other => panic!("{:?}", other),
    }
    // A script without outside work runs to its end, and one that fails says so.
    assert!(matches!(vm.interpret("var b; { var c = b; } b = a;", 1000), Ok(Signal::Done)));
    match vm.interpret("print missing;", 1000) {
        Ok(Signal::Fault(error)) => assert_eq!(error.fault, Fault::UndefinedVariable),
        other => panic!("{:?}", other),
    }
}

#[test]
fn run_stops_when_its_budget_is_used_up() {
    let mut vm = Vm::new();
    assert!(matches!(vm.interpret("while (true) {}", 0), Ok(Signal::Continue)));
    assert_eq!(vm.frames.len(), 1);
    assert_eq!(vm.frames[0].ip, 0);
    assert!(matches!(vm.run(1000), Signal::Continue));
    assert!(matches!(vm.run(0), Signal::Continue));
    assert_eq!(vm.frames.len(), 1);
    let mut other = Vm::new();
    assert!(matches!(other.interpret("while (true) {}", 1000), Ok(Signal::Continue)));
    let mut idle = Vm::new();
    assert!(matches!(idle.step(), Signal::Done));
    assert!(matches!(idle.run(5), Signal::Done));
}

#[test]
fn steps_of_a_hand_made_chunk() {
    let mut vm = machine(
        vec![
            OpCode::Constant(0),
            OpCode::Constant(1),
            OpCode::Nil,
            OpCode::Not,
            OpCode::JumpIfFalse(1),
            OpCode::Jump(1),
            OpCode::Placeholder,
            OpCode::Pop,
            OpCode::DefineGlobal(2),
            OpCode::GetGlobal(2),
            OpCode::Negative,
            OpCode::Return,
        ],
        vec![
            Constant::Number(2.5f64.to_bits()),
            Constant::Numeral(b"4".to_vec()),
            Constant::Text(b"name".to_vec()),
        ],
    );
    assert!(matches!(vm.step(), Signal::Continue));
    assert_eq!(vm.stack.values[1..], [number(2.5)]);
    match vm.step() {
        Signal::Numeral(numeral) => assert_eq!(numeral, b"4".to_vec()),
        other => panic!("{:?}", other),
    }
    vm.push(number(4.0));
    assert!(matches!(vm.step(), Signal::Continue));
    assert!(matches!(vm.step(), Signal::Continue));
    assert_eq!(vm.stack.values[1..], [number(2.5), number(4.0), Value::Bool(true)]);
    // The value on top is truthy: no jump, and the value stays.
    assert!(matches!(vm.step(), Signal::Continue));
    assert_eq!(vm.frames[0].ip, 5);
    assert!(matches!(vm.step(), Signal::Continue));
    assert_eq!(vm.frames[0].ip, 7);
    assert!(matches!(vm.step(), Signal::Continue));
    assert!(matches!(vm.step(), Signal::Continue));
    assert_eq!(vm.stack.values[1..], [number(2.5)]);
    assert!(matches!(vm.step(), Signal::Continue));
    assert!(matches!(vm.step(), Signal::Continue));
    assert_eq!(vm.stack.values[1..], [number(2.5), number(-4.0)]);
    assert!(matches!(vm.step(), Signal::Done));
    assert_eq!(vm.stack.values, vec![number(-4.0)]);
    assert!(vm.frames.is_empty());
}

#[test]
fn corrupt_bytecode_is_a_fault() {
    let cases: Vec<(Vec<OpCode>, Fault)> = vec![
        (vec![OpCode::Constant(7)], Fault::Corrupt),
        (vec![OpCode::Pop, OpCode::Pop], Fault::Corrupt),
        (vec![OpCode::Add], Fault::Corrupt),
        (vec![OpCode::GetLocal(9)], Fault::Corrupt),
        (vec![OpCode::SetLocal(9)], Fault::Corrupt),
        (vec![OpCode::GetUpvalue(0)], Fault::Corrupt),
        (vec![OpCode::SetUpvalue(0)], Fault::Corrupt),
        (vec![OpCode::Loop(5)], Fault::Corrupt),
        (vec![OpCode::Jump(5)], Fault::Corrupt),
        (vec![OpCode::Call(3)], Fault::Corrupt),
        (vec![OpCode::Closure(0)], Fault::Corrupt),
        (vec![OpCode::DefineGlobal(0)], Fault::Corrupt),
        (vec![OpCode::GetGlobal(0)], Fault::Corrupt),
        (vec![OpCode::Nil], Fault::Corrupt),
        (vec![OpCode::DefineLocal], Fault::UnknownInstruction),
        (vec![OpCode::Placeholder], Fault::UnknownInstruction),
        (vec![OpCode::Nil, OpCode::Call(0)], Fault::NotCallable),
    ];
    for (code, expected) in cases.into_iter() {
        let shown = format!("{:?}", code);
        let mut vm = machine(code, Vec::new());
        match vm.run(10) {
            Signal::Fault(error) => assert_eq!(error.fault, expected, "{}", shown),
            other => panic!("{}: {:?}", shown, other),
        }
        assert_eq!(vm.stack.len(), 0);
    }
}

#[test]
fn upvalues_are_captured_once_and_closed_with_their_value() {
    let mut vm = machine(vec![OpCode::Nil], Vec::new());
    vm.push(number(10.0));
    vm.push(number(20.0));
    vm.push(number(30.0));
    // Make two closures that capture slots 1 and 3, and 3 alone.
    let mut first = ObjFunction::new(b"first".to_vec());
    first.upvalues.push(rox::objects::UpValue::new(1, true));
    first.upvalues.push(rox::objects::UpValue::new(3, true));
    let mut second = ObjFunction::new(b"second".to_vec());
    second.upvalues.push(rox::objects::UpValue::new(3, true));
    let mut function = ObjFunction::new(b"test".to_vec());
    function.chunk.push_constant(Constant::Function(Rc::new(first)));
    function.chunk.push_constant(Constant::Function(Rc::new(second)));
    function.chunk.write_to_chunk(OpCode::Closure(0), 1);
    function.chunk.write_to_chunk(OpCode::Closure(1), 1);
    let roots = vm.gather_roots();
    let closure = vm.heap.allocate(Obj::Closure(ObjClosure::new(Rc::new(function))), &roots).unwrap();
    vm.stack.values[0] = Value::Closure(closure);
    vm.frames[0] = CallFrame::new(closure);
    assert!(matches!(vm.step(), Signal::Continue));
    assert!(matches!(vm.step(), Signal::Continue));
    let upvalues_of = |vm: &Vm, value: Value| match value {
        Value::Closure(h) => match vm.heap.get(h) {
            Some(Obj::Closure(c)) => c.obj_upvalues.clone(),
            _ => panic!("a closure"),
        },
        _ => panic!("a closure"),
    };
    let a = upvalues_of(&vm, vm.stack.values[4]);
    let b = upvalues_of(&vm, vm.stack.values[5]);
    assert_eq!(a.len(), 2);
    assert_eq!(b, vec![a[1]]);
    // The open upvalues are listed from the highest slot down.
    assert_eq!(vm.open_values, vec![a[1], a[0]]);
    let upvalue = |vm: &Vm, h: Gc| match vm.heap.get(h) {
        Some(Obj::UpValue(u)) => *u,
        _ => panic!("an upvalue"),
    };
    assert_eq!(upvalue(&vm, a[0]), ObjUpValue { location: 1, closed: None });
    assert_eq!(upvalue(&vm, a[1]), ObjUpValue { location: 3, closed: None });
    // Closing from slot 2 up closes the upvalue over slot 3 alone.
    vm.frames[0].ip = 0;
    vm.stack.values.truncate(4);
    let mut closing = ObjFunction::new(b"closing".to_vec());
    closing.chunk.write_to_chunk(OpCode::CloseUpvalue, 1);
    let roots = vm.gather_roots();
    let closer = vm.heap.allocate(Obj::Closure(ObjClosure::new(Rc::new(closing))), &roots).unwrap();
    vm.frames[0].closure = closer;
    assert!(matches!(vm.step(), Signal::Continue));
    assert_eq!(upvalue(&vm, a[1]), ObjUpValue { location: 3, closed: Some(number(30.0)) });
    assert_eq!(upvalue(&vm, a[0]), ObjUpValue { location: 1, closed: None });
    assert_eq!(vm.open_values, vec![a[0]]);
    assert_eq!(vm.stack.len(), 3);
}
