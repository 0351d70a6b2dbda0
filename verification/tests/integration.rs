use rox::compiler::Parser;
use rox::op_code::OpCode;
use rox::value::Value;
use rox::vm::{Signal, Vm};

fn text(bytes: &[u8]) -> String {
    String::from_utf8_lossy(bytes).into_owned()
}

fn arithmetic(op: OpCode, lhs: u64, rhs: u64) -> u64 {
    let (a, b) = (f64::from_bits(lhs), f64::from_bits(rhs));
    let result = match op {
        OpCode::Add => a + b,
        OpCode::Subtract => a - b,
        OpCode::Multiply => a * b,
        OpCode::Divide => a / b,
        _ => f64::NAN,
    };
    result.to_bits()
}

// Runs a script as the command-line program does and returns what it writes
// to standard output and to standard error, and whether it succeeded.
fn run(input: &str) -> (String, String, bool) {
    let mut stdout = String::new();
    let mut stderr = String::new();
    let function = match Parser::new(input.as_bytes()).compile() {
        Ok(function) => function,
        Err(errors) => {
            for error in errors.iter() {
                stderr.push_str(&text(&error.render()));
                stderr.push('\n');
            }
            return (stdout, stderr, false);
        }
    };
    let mut vm = Vm::new();
    vm.initialize();
    let mut signal = vm.load(function);
    loop {
        match signal {
            Signal::Continue => {}
            Signal::Done => return (stdout, stderr, true),
            Signal::Print { text: shown, number } => {
                stdout.push_str(&text(&shown));
                if let Some(bits) = number {
                    stdout.push_str(&format!("{}", f64::from_bits(bits)));
                }
                stdout.push('\n');
            }
            Signal::Arithmetic { op, lhs, rhs } => vm.push(Value::Number(arithmetic(op, lhs, rhs))),
            Signal::Numeral(numeral) => {
                let number: f64 = text(&numeral).parse().expect("a numeral");
                vm.push(Value::Number(number.to_bits()));
            }
            Signal::Native { name: _, args: _ } => {
                let now = std::time::SystemTime::now()
                    .duration_since(std::time::UNIX_EPOCH)
                    .expect("time went backwards");
                vm.push(Value::Number(now.as_secs_f64().to_bits()));
            }
            Signal::Fault(error) => {
                stderr.push_str(&text(&error.headline()));
                stderr.push('\n');
                for entry in error.trace.iter() {
                    stderr.push_str(&text(&entry.render()));
                    stderr.push('\n');
                }
                return (stdout, stderr, false);
            }
        }
        signal = vm.run(100_000);
    }
}

// The listing of the instructions that the script compiles to.
fn listing(input: &str) -> String {
    let function = Parser::new(input.as_bytes()).compile().expect("the script compiles");
    let mut shown = String::new();
    for listing in function.chunk.disassemble_chunk().iter() {
        shown.push_str(&text(&listing.render()));
        shown.push('\n');
    }
    shown
}

// The script runs, and the listing of its instructions holds `expected`.
fn run_test_lists(input: &str, expected: &str) {
    let (stdout, stderr, success) = run(&format!("{}\n", input));
    let shown = listing(&format!("{}\n", input));
    println!("listing: {}", shown);
    println!("stdout: {}", stdout);
    println!("stderr: {}", stderr);
    assert!(success);
    assert!(shown.contains(expected));
}

fn run_test_contains(input: &str, expected: &str) {
    let (stdout, stderr, success) = run(&format!("{}\n", input));
    println!("stdout: {}", stdout);
    println!("stderr: {}", stderr);
    assert!(success);
    assert!(stdout.contains(expected));
}

fn fail_test(input: &str, expected: &str) {
    let (stdout, stderr, _) = run(&format!("{}\n", input));
    println!("stdout: {}", stdout);
    println!("stderr: {}", stderr);
    assert!(!stderr.is_empty() && stderr.contains(expected));
}

#[test]
fn rox_constant_number() {
    run_test_contains("print 1;", "1")
}

#[test]
fn rox_arithmetic_plus() {
    run_test_contains("print 1+2;", "3")
}

#[test]
fn rox_arithmetic_minus() {
    run_test_contains("print 1-2;", "-1")
}

#[test]
fn rox_arithmetic_multiply() {
    run_test_contains("print 2*2;", "4")
}

#[test]
fn rox_arithmetic_negative() {
    run_test_contains("print -2;", "-2")
}
#[test]
fn rox_arithmetic_grouping() {
    run_test_contains("print (1+2)*3;", "9")
}

#[test]
fn rox_arithmetic_complex_grouping() {
    run_test_contains("print -((1+2)*2);", "-6")
}

#[test]
fn rox_false() {
    run_test_contains("print false;", "false")
}

#[test]
fn rox_true() {
    run_test_contains("print true;", "true")
}

#[test]
fn rox_falsey_false() {
    run_test_contains("print !false;", "true")
}

#[test]
fn rox_falsey_true() {
    run_test_contains("print !true;", "false")
}

#[test]
fn rox_greater_true() {
    run_test_contains("print 2 > 1;", "true")
}

#[test]
fn rox_bang_bang() {
    run_test_contains("print 1 != 2;", "true")
}
#[test]
fn rox_greater_false() {
    run_test_contains("print 1 > 2;", "false")
}

#[test]
fn rox_greater_equal_true() {
    run_test_contains("print 2 >= 2;", "true")
}

#[test]
fn rox_greater_equal_true2() {
    run_test_contains("print 2 > 1;", "true")
}

#[test]
fn rox_less_equal_true() {
    run_test_contains("print 1 <= 2;", "true")
}

#[test]
fn rox_less_equal_true2() {
    run_test_contains("print 2 <= 2;", "true")
}

#[test]
fn rox_less_false() {
    run_test_contains("print 2 < 1;", "false")
}

#[test]
fn rox_compare_equal() {
    run_test_contains("print (1 == 1) == true;", "true")
}

#[test]
fn rox_compare_group_equal() {
    run_test_contains("print (1 == 1) == (2 == 2);", "true")
}

#[test]
fn rox_nil() {
    run_test_lists("print nil;", "Nil")
}
#[test]
fn rox_nagative_string() {
    fail_test("print -a;", "undefined variable 'a'")
}

#[test]
fn rox_string() {
    run_test_contains("print \"a\";", "a")
}

#[test]
fn rox_string_concate() {
    run_test_contains(r#"print "a" + "b";"#, "ab")
}

#[test]
fn rox_print() {
    run_test_contains("print true;", "true")
}

#[test]
fn rox_print_number() {
    run_test_contains("print 1;", "1")
}

#[test]
fn rox_print_string() {
    run_test_contains(r#"print "hello";"#, "hello")
}

#[test]
fn rox_print_arithmetic() {
    run_test_contains("print 1+2*3+(1+1);", "9")
}

#[test]
fn rox_add_failed() {
    fail_test("1 + true;", "operands must be two numbers or two strings")
}

#[test]
fn rox_multiply_failed() {
    fail_test(r#"1 * "a";"#, "operands must be two numbers")
}

#[test]
fn rox_subtract_failed() {
    fail_test(r#"1 - "a";"#, "operands must be two numbers")
}

#[test]
fn rox_divided_failed() {
    fail_test(r#"1 / "a";"#, "operands must be two numbers")
}
#[test]
fn rox_falsey_nil() {
    run_test_contains("print !nil;", "true")
}

#[test]
fn rox_falsey_nil2() {
    run_test_contains("print nil == nil;", "true")
}

#[test]
fn rox_falsey_nil3() {
    run_test_contains("print nil != nil;", "false")
}

#[test]
fn rox_variable() {
    run_test_lists("var a = 1;", "1")
}

#[test]
fn rox_variable2() {
    run_test_contains(
        r#"var a = 1 + 1; 
        print a;"#,
        "2",
    )
}

#[test]
fn rox_variable3() {
    run_test_contains(
        r#"
            var a = 1 + 1; 
            var b = a + 1; 
            print b;"#,
        "3",
    )
}

#[test]
fn rox_variable_use_twice() {
    run_test_contains(
        r#"
            var a = 1;
            var b = a+1;
            var c = a+2;
            print c;"#,
        "3",
    )
}

#[test]
fn rox_variable_assign() {
    run_test_contains(
        r#"
            var a = 1 + 1; 
            var a = 3;
            print a;"#,
        "3",
    )
}

#[test]
fn rox_variable_assign2() {
    run_test_contains(
        r#"
            var a = 1;
            var b = 2;
            var c = 3;
            var d = a + c;
            print d;"#,
        "4",
    )
}

#[test]
fn rox_variable_assign_after_allocation() {
    run_test_contains(
        r#"
            var a = 1;
            var b = 2;
            var c = 3;
            var d = 4;
            var e = 5;
            var f = 6;
            var g = 7;
            var h = 8;
            var i = 9;
            var j = 10;
            var k = 11;
            var l = 12;
            var m = a+k+f;
            print m;"#,
        "18",
    )
}

#[test]
fn rox_variable_assign_after_allocation2() {
    run_test_contains(
        r#"
            var a = 1;
            var b = 2;
            var c = 3;
            var d = 4;
            var e = 5;
            var f = 6;
            var g = 7;
            var h = 8;
            var i = 9;
            var j = 10;
            var k = 11;
            var l = 12;
            var m = a+k+f;
            var n = m + 1;
            var o = 13;
            var p = 14;
            var q = 15;
            var r = 16;
            var s = 17;
            var z = c + g + m +q;
            print z;"#,
        "43",
    )
}

#[test]
fn rox_variable_assign_after_allocation3() {
    run_test_contains(
        r#"
            var a = 1;
            var b = 2;
            var c = 3;
            var d = 4;
            var e = 5;
            var f = 6;
            var g = 7;
            var h = 8;
            var i = 9;
            var j = 10;
            var k = 11;
            var l = 12;
            var m = a+k+f;
            var n = m + 1;
            var o = 13;
            var p = 14;
            var q = 15;
            var r = 16;
            var s = 17;
            var z = c + g + m +q;
            var x = z + 1;
            var y = 18;
            var w = 19;
            var v = 20;
            var u = 21;
            var t = 22;
            var ss = 23;
            var zz = 24;
            var xx = 25;
            var yy = 26;
            var ww = 27;
            var vv = 28;
            var uu = 29;
            var tt = 30;
            var sss = 31;
            var zzz = 32;
            var xxx = 33;
            var yyy = 34;
            var www = 35;
            var vvv = 36;
            var uuu = 37;
            var ttt = 38;
            var ssss = 39;
            var zzzz = 40;
            var xxxx = 41;
            var yyyy = 42;
            var wwww = 43;
            var vvvv = 44;
            var uuuu = 45;
            var tttt = 46;
            var sssss = 47;
            var zzzzz = 48;
            var xxxxx = 49;
            var yyyyy = 50;
            var wwwww = 51;
            var vvvvv = 52;
            var uuuuu = 53;
            var ttttt = 54;
            var ssssss = 55;
            var zzzzzz = 56;
            var xxxxxx = 57;
            var yyyyyy = a + xxxxxx;
            print yyyyyy;"#,
        "58",
    )
}

#[test]
fn rox_local_variable() {
    run_test_contains(
        r#"
            var a = 1;
            {
                var a = 2;
                print a;
            }
        "#,
        "2",
    )
}

#[test]
fn rox_local_variable2() {
    run_test_contains(
        r#"
            var a = 1;
            {
                var a = 2;
            }
            print a;
        "#,
        "1",
    )
}

#[test]
fn rox_local_variable3() {
    run_test_contains(
        r#"
            var a = 1;
            {
                var b = 2;
                var c = b + a;
                print c;
            }
        "#,
        "3",
    )
}

#[test]
fn rox_local_variable4() {
    run_test_contains(
        r#"
            var a = 1;
            var b = 2;
            var c = a+b;
            {
                var b = 12;
                var c = 13;
                var d = c + b;
            }
            print c;
        "#,
        "3",
    )
}

#[test]
fn rox_local_variable5() {
    run_test_contains(
        r#"
            var a = 1;
            var b = 2;
            var c = a+b;
            {
                var b = 12;
                var c = 13;
                var d = c + b;
                print d;
            }
        "#,
        "25",
    )
}

#[test]
fn rox_local_variable6() {
    run_test_contains(
        r#"
            var a = 1;
            var b = 2;
            var c = a+b;
            {
                var b = 12;
                var d = c + b;
                print d;
            }
        "#,
        "15",
    )
}

#[test]
fn rox_reassign_local() {
    run_test_contains(
        r#"
            var a = 1;
            {
                var a = 2;
                a =3;
                print a;
            }
        "#,
        "3",
    )
}

#[test]
fn rox_reassign_local2() {
    run_test_contains(
        r#"
            var a = 1;
            {
                var a = 2;
                a = 3;
                a = 4;
                print a;
            }
        "#,
        "4",
    )
}

#[test]
fn rox_duplicate_local() {
    fail_test(
        r#"
            var a = 1;
            {
                var a = 2;
                var a = 3;
                print a;
            }
        "#,
        "Variable with this name already declared in this scope",
    )
}

#[test]
fn rox_duplicate_local2() {
    fail_test(
        r#"
            var a = 1;
            var b = 2;
            {
                var a = 2;
                var b = 3;
                var a = 4;
                print a;
            }
        "#,
        "Variable with this name already declared in this scope",
    )
}

#[test]
fn rox_if_then() {
    run_test_contains(
        r#"
            var a = 1;
            if (a == 1) {
                print "a is 1";
            }
        "#,
        "a is 1",
    )
}

#[test]
fn rox_if_false() {
    run_test_contains(
        r#"
            var a = 2;
            if (a == 1) {
                print "a is 1";
            }
            print "done";
        "#,
        "done",
    )
}

#[test]
fn rox_if_else() {
    run_test_contains(
        r#"
            var a = 2;
            if (a == 1) {
                print "a is 1";
            } else {
                print "a is not 1";
            }
        "#,
        "a is not 1",
    )
}

#[test]
fn rox_if_else2() {
    run_test_contains(
        r#"
            var a = 1;
            if (a == 1) {
                print "a is 1";
            } else {
                print "a is not 1";
            }
        "#,
        "a is 1",
    )
}

#[test]
fn rox_and() {
    run_test_contains(
        r#"
            var a = 1;
            var b = 2;
            if (a == 1 and b == 2) {
                print "a is 1 and b is 2";
            }
        "#,
        "a is 1 and b is 2",
    )
}

#[test]
fn rox_and_falsey() {
    run_test_contains(
        r#"
            var a = 1;
            var b = 2;
            if (a == 1 and b == 3) {
                print "a is 1 and b is 2";
            }
            else{
                print "a is 1 and b is not 2";
            }
        "#,
        "a is 1 and b is not 2",
    )
}

#[test]
fn rox_or() {
    run_test_contains(
        r#"
            var a = 1;
            var b = 2;
            if (a == 1 or b == 3) {
                print "a is 1 or b is 3";
            }
        "#,
        "a is 1 or b is 3",
    )
}

#[test]
fn rox_or_2() {
    run_test_contains(
        r#"
            var a = 1;
            var b = 2;
            if (a == 2 or b == 3) {
                print "a is 2 or b is 3";
            }
            else{
                print "a is not 2 and b is not 3";
            }
        "#,
        "a is not 2 and b is not 3",
    )
}

#[test]
fn rox_and_or() {
    run_test_contains(
        r#"
            var a = 1;
            var b = 2;
            if (a == 1 and b == 2 or a == 2 and b == 3) {
                print "a is 1 and b is 2 or a is 2 and b is 3";
            }
        "#,
        "a is 1 and b is 2 or a is 2 and b is 3",
    )
}

#[test]
fn rox_while() {
    run_test_contains(
        r#"
            var a = 1;
            while (a < 5) {
                a = a + 1;
            }
            print a;
        "#,
        "5",
    )
}

#[test]
fn rox_while2() {
    run_test_contains(
        r#"
            var a = 1;
            while (a < 6 and a != 5) {
                a = a + 1;
            }
            print a;
        "#,
        "5",
    )
}

#[test]
fn rox_for() {
    run_test_lists(
        r#"
            var x = 1;
            for (var i = 0; i < 5; i = i + 1) {
                x = x + i;
            }
            print x;
        "#,
        "5",
    )
}

#[test]
fn rox_for2() {
    run_test_contains(
        r#"
            var x = 1;
            for (;x < 5;) {
                x = x + 1;
            }
            print x;
        "#,
        "5",
    )
}

#[test]
fn rox_for3() {
    run_test_contains(
        r#"
            var x = 1;
            for (; x < 5;x = x + 2) {
                print "inside the loop";
            }
            print x;
        "#,
        "5",
    )
}

#[test]
fn rox_for_local_scope() {
    fail_test(
        r#"
            for (var i = 0; i < 5; i = i + 1) {
                print i;
            }
            print i;
        "#,
        "undefined variable 'i'",
    )
}

#[test]
fn rox_func() {
    run_test_lists(
        r#"
            fun foo() {
                print "foo is a function";
            }
            print foo;
        "#,
        "foo",
    )
}

#[test]
fn rox_func_call() {
    run_test_contains(
        r#"
            fun foo() {
                print "foo is a function";
            }
            foo();
        "#,
        "foo is a function",
    )
}

#[test]
fn rox_func_call2() {
    run_test_contains(
        r#"
            fun foo() {
                print "foo is a function";
            }
            fun bar() {
                foo();
            }
            bar();
        "#,
        "foo is a function",
    )
}

#[test]
fn rox_func_call3() {
    run_test_contains(
        r#"
            fun foo() {
                var a=1;
                var b=2;
                print a+b;
            }
            fun bar() {
                foo();
            }
            bar();
        "#,
        "3",
    )
}

#[test]
fn rox_func_call4() {
    run_test_contains(
        r#"
            fun foo(x) {
                var b = 2;
                print x+b;
            }
            foo(2);
        "#,
        "4",
    )
}

#[test]
fn rox_func_call5() {
    run_test_contains(
        r#"
            fun foo(x, y) {
                var b = 2;
                print x+y+b;
            }
            fun bar(x) {
                foo(2, x);
            }
            bar(2);
        "#,
        "6",
    )
}

#[test]
fn rox_func_call_return() {
    run_test_contains(
        r#"
            fun foo(x) {
                return x+1;
            }
            print foo(2);
        "#,
        "3",
    )
}
#[test]
fn rox_func_call_return2() {
    run_test_contains(
        r#"
            fun foo(x, y) {
                var b = 2;
                return x+y+b;
            }
            fun bar(x) {
                return foo(2, x);
            }
            print bar(2);
        "#,
        "6",
    )
}

#[test]
fn rox_func_call_return3() {
    run_test_contains(
        r#"
            fun foo(x, y) {
                var b = 2;
                return x+y+b;
            }
            fun bar(x) {
                return foo(2, x);
            }
            var res1 = bar(2);
            print res1;
        "#,
        "6",
    )
}

#[test]
fn rox_func_call_return4() {
    run_test_contains(
        r#"
            fun foo(x, y) {
                if (x > y) {
                    return x;
                }
                else {
                    return y;
                }
            }
            fun bar(x) {
                return foo(2, x);
            }
            var res = bar(3);
            print res;
        "#,
        "3",
    )
}

#[test]
fn rox_nested_func_call() {
    run_test_contains(
        r#"
            fun foo(){
               fun bar(){
                   print "bar";
               }

               bar ();
            
            }
            foo();
        "#,
        "bar",
    )
}

#[test]
fn rox_func_dup_call() {
    run_test_contains(
        r#"
            fun foo(x) {
                return x;
            }
            var res1 = foo(2);
            var res2 = foo(3);
            print res1 + res2;
        "#,
        "5",
    )
}

#[test]
fn rox_func_dup_call2() {
    run_test_contains(
        r#"
            fun foo(x) {
                return x;
            }
            print foo(2) + foo(3);
        "#,
        "5",
    )
}

#[test]
fn rox_func_dup_call3() {
    run_test_contains(
        r#"
            fun foo(x) {
                return x;
            }
            fun bar(x) {
                return foo(x);
            }
            print bar(2) + bar(3);
        "#,
        "5",
    )
}

#[test]
fn rox_func_dup_call4() {
    run_test_contains(
        r#"
            fun foo(x) {
                return x;
            }
            fun bar(x) {
                return foo(x);
            }
            fun baz(x) {
                return bar(x);
            }
            print baz(2) + baz(3) + bar(4) + foo(5);
        "#,
        "14",
    )
}

#[test]
fn rox_native_func() {
    run_test_lists(
        r#"
            print clock();
        "#,
        "clock",
    )
}

#[test]
fn rox_closure() {
    run_test_contains(
        r#"
            var x = "global";
            fun outer() {
                var x = "outer";
                fun inner() {
                    print x + " here!";
                }
                inner();
            }
            outer();
        "#,
        "outer here!",
    )
}

#[test]
fn rox_nested_closure() {
    run_test_contains(
        r#"
            fun outer() {
                var x = "outer";
                fun middle(){
                    fun inner() {
                        print x;
                    }
                    inner();
                }
                middle();
            }
            outer();
        "#,
        "outer",
    )
}

#[test]
fn rox_closure_with_param() {
    run_test_contains(
        r#"
            fun outer(y) {
                var x = 1;
                fun middle(){
                    fun inner() {
                        print x + y + 1;
                    }
                    inner();
                }
                middle();
            }
            outer(2);
        "#,
        "4",
    )
}
