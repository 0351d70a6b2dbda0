use rox::chunk::{Chunk, Constant};
use rox::compiler::{
    get_rule, CompileError, ErrorPlace, FunctionType, ParseFn, Parser, Precedence,
};
use rox::objects::ObjFunction;
use rox::op_code::OpCode;
use rox::token::TokenType;

fn compile(source: &str) -> Result<ObjFunction, Vec<CompileError>> {
    Parser::new(source.as_bytes()).compile()
}

fn messages(source: &str) -> Vec<&'static str> {
    match compile(source) {
        Ok(_) => Vec::new(),
        Err(errors) => errors.iter().map(|e| e.message).collect(),
    }
}

fn code(source: &str) -> Vec<OpCode> {
    compile(source).expect("the source compiles").chunk.code
}

// Every jump of the chunk, and of the chunks of the functions nested in it,
// lands on an instruction, and every operand is in range.
fn check_sound(function: &ObjFunction) {
    let chunk: &Chunk = &function.chunk;
    assert_eq!(chunk.code.len(), chunk.lines.len());
    for (at, op) in chunk.code.iter().enumerate() {
        match *op {
            OpCode::Jump(o) | OpCode::JumpIfFalse(o) => {
                assert!(at + 1 + (o as usize) < chunk.code.len());
            }
            OpCode::Loop(o) => assert!((o as usize) <= at),
            OpCode::Constant(ix) => {
                assert!(!matches!(chunk.constants[ix], Constant::Function(_)));
            }
            OpCode::Closure(ix) => assert!(matches!(chunk.constants[ix], Constant::Function(_))),
            OpCode::DefineGlobal(ix) | OpCode::GetGlobal(ix) | OpCode::SetGlobal(ix) => {
                assert!(matches!(chunk.constants[ix], Constant::Text(_)));
            }
            OpCode::GetLocal(slot) | OpCode::SetLocal(slot) => assert!(1 <= slot && slot <= 256),
            OpCode::GetUpvalue(ix) | OpCode::SetUpvalue(ix) => assert!(ix < function.upvalues.len()),
            OpCode::Call(argc) => assert!(argc <= 255),
            _ => {}
        }
    }
    for constant in chunk.constants.iter() {
        if let Constant::Function(inner) = constant {
            check_sound(inner);
        }
    }
}

#[test]
fn test_precedence_no() {
    let pre = Precedence::No;
    assert_eq!(Precedence::Assignment, pre.next())
}

#[test]
fn test_precedence_term() {
    let pre = Precedence::Term;
    assert_eq!(Precedence::Factor, pre.next())
}

#[test]
fn test_precedence_factor() {
    let pre = Precedence::Factor;
    assert_eq!(Precedence::Unary, pre.next())
}

#[test]
fn test_precedence_unary() {
    let pre = Precedence::Unary;
    assert_eq!(Precedence::Call, pre.next())
}

#[test]
fn test_precedence_call() {
    let pre = Precedence::Call;
    assert_eq!(Precedence::Primary, pre.next())
}

#[test]
fn test_precedence_primary() {
    let pre = Precedence::Primary;
    assert_eq!(Precedence::Primary, pre.next())
}

#[test]
fn test_compile() {
    let source = "1 + 2;".as_bytes();
    let parser = Parser::new(source);
    assert!(parser.compile().is_ok());
}

#[test]
fn test_compile_negative() {
    let source = "-1;".as_bytes();
    let parser = Parser::new(source);
    assert!(parser.compile().is_ok());
}

#[test]
fn test_compile_grouping() {
    let source = "(1);".as_bytes();
    let parser = Parser::new(source);
    assert!(parser.compile().is_ok());
}

#[test]
fn test_compile_grouping_negative() {
    let source = "(-1);".as_bytes();
    let parser = Parser::new(source);
    assert!(parser.compile().is_ok());
}

#[test]
fn test_compile_grouping_negative_with_plus() {
    let source = "(-1 + 1);".as_bytes();
    let parser = Parser::new(source);
    assert!(parser.compile().is_ok());
}

#[test]
fn test_compile_grouping_negative_with_plus_and_multi() {
    let source = "(-1 + 1) * 2;".as_bytes();
    let parser = Parser::new(source);
    assert!(parser.compile().is_ok());
}

#[test]
fn test_compile_string() {
    let source = r#""hello";"#.as_bytes();
    let parser = Parser::new(source);
    assert!(parser.compile().is_ok());
}

#[test]
fn test_synchonize() {
    let source = r#"1 + &;"#.as_bytes();
    let parser = Parser::new(source);
    assert!(!parser.compile().is_ok());
}

#[test]
fn test_global() {
    let source = r#"var a = 1;"#.as_bytes();
    let parser = Parser::new(source);
    let obj = parser.compile();
    assert!(obj.is_ok());
    assert_eq!(2, obj.as_ref().unwrap().chunk.constants.len());
    // Constant, DefineGlobal,Nil,Return
    assert_eq!(4, obj.as_ref().unwrap().chunk.code.len());
}

#[test]
fn test_scope() {
    let source = r#"
        {
            var a = 1;
        }
        "#
    .as_bytes();
    let parser = Parser::new(source);
    let obj = parser.compile();
    assert!(obj.is_ok());
    assert_eq!(1, obj.as_ref().unwrap().chunk.constants.len());
    // Constant,Pop,Nil,Return
    assert_eq!(4, obj.as_ref().unwrap().chunk.code.len());
}

#[test]
fn test_scope_nested() {
    let source = r#"
        {
            var a = 1;
            {
                var a = 2;
                print a;
            }
        }
        "#
    .as_bytes();
    let parser = Parser::new(source);
    let obj = parser.compile();
    assert!(obj.is_ok());
    assert_eq!(2, obj.as_ref().unwrap().chunk.constants.len());
    // Constant, Constant, Print, GetLocal,Pop, Pop, Nil,Return
    assert_eq!(8, obj.as_ref().unwrap().chunk.code.len());
}

#[test]
fn test_scope_fail() {
    let source = r#"
        {
            var a = 1;
            {
                var a = 2;
        }
        "#
    .as_bytes();
    let parser = Parser::new(source);
    assert!(!parser.compile().is_ok());
}

#[test]
fn test_if() {
    let source = r#"
        if (true) {
            print "true";
        }
        "#
    .as_bytes();
    let parser = Parser::new(source);
    let obj = parser.compile();
    assert!(obj.is_ok());
    assert_eq!(1, obj.as_ref().unwrap().chunk.constants.len());
    assert_eq!(9, obj.as_ref().unwrap().chunk.code.len());
}

#[test]
fn test_if_else() {
    let source = r#"
        if (true) {
            print "true";
        } else {
            print "false";
        }
        "#
    .as_bytes();
    let parser = Parser::new(source);
    let obj = parser.compile();
    assert!(obj.is_ok());
    assert_eq!(2, obj.as_ref().unwrap().chunk.constants.len());
    assert_eq!(11, obj.as_ref().unwrap().chunk.code.len());
}

#[test]
fn test_and() {
    let source = r#"
        if (true and false) {
            print "true";
        } else {
            print "false";
        }
        "#
    .as_bytes();
    let parser = Parser::new(source);
    let obj = parser.compile();
    assert!(obj.is_ok());
    assert_eq!(2, obj.as_ref().unwrap().chunk.constants.len());
    assert_eq!(14, obj.as_ref().unwrap().chunk.code.len());
}

#[test]
fn test_or() {
    let source = r#"
        if (true or false) {
            print "true";
        } else {
            print "false";
        }
        "#;
    let function = compile(source).unwrap();
    assert_eq!(2, function.chunk.constants.len());
    assert_eq!(15, function.chunk.code.len());
    assert_eq!(
        function.chunk.code,
        vec![
            OpCode::True,
            OpCode::JumpIfFalse(1),
            OpCode::Jump(2),
            OpCode::Pop,
            OpCode::False,
            OpCode::JumpIfFalse(4),
            OpCode::Pop,
            OpCode::Constant(0),
            OpCode::Print,
            OpCode::Jump(3),
            OpCode::Pop,
            OpCode::Constant(1),
            OpCode::Print,
            OpCode::Nil,
            OpCode::Return,
        ]
    );
}

#[test]
fn and_skips_its_right_operand_with_one_jump() {
    assert_eq!(
        code("true and false;"),
        vec![
            OpCode::True,
            OpCode::JumpIfFalse(2),
            OpCode::Pop,
            OpCode::False,
            OpCode::Pop,
            OpCode::Nil,
            OpCode::Return,
        ]
    );
}

#[test]
fn empty_source_returns_nil() {
    let function = compile("").unwrap();
    assert_eq!(function.chunk.code, vec![OpCode::Nil, OpCode::Return]);
    assert_eq!(function.arity, 0);
    assert_eq!(function.name.value, b"script".to_vec());
    assert_eq!(function.name.hash, rox::utils::hash(b"script"));
    assert!(function.upvalues.is_empty());
    assert_eq!(code("  // nothing but a comment\n"), vec![OpCode::Nil, OpCode::Return]);
}

#[test]
fn arithmetic_follows_precedence() {
    let function = compile("print (1 + 2) * 3 - 4 / -5;").unwrap();
    assert_eq!(
        function.chunk.code,
        vec![
            OpCode::Constant(0),
            OpCode::Constant(1),
            OpCode::Add,
            OpCode::Constant(2),
            OpCode::Multiply,
            OpCode::Constant(3),
            OpCode::Constant(4),
            OpCode::Negative,
            OpCode::Divide,
            OpCode::Subtract,
            OpCode::Print,
            OpCode::Nil,
            OpCode::Return,
        ]
    );
    let numerals: Vec<Vec<u8>> = function
        .chunk
        .constants
        .iter()
        .map(|c| match c {
            Constant::Numeral(text) => text.clone(),
            _ => panic!("a numeral"),
        })
        .collect();
    assert_eq!(numerals, vec![b"1".to_vec(), b"2".to_vec(), b"3".to_vec(), b"4".to_vec(), b"5".to_vec()]);
}

#[test]
fn comparisons_compile_to_their_negations() {
    assert_eq!(code("1 <= 2;")[2..4], [OpCode::Greater, OpCode::Not]);
    assert_eq!(code("1 >= 2;")[2..4], [OpCode::Less, OpCode::Not]);
    assert_eq!(code("1 != 2;")[2..4], [OpCode::Equal, OpCode::Not]);
    assert_eq!(code("1 == 2;")[2], OpCode::Equal);
    assert_eq!(code("!true;")[..2], [OpCode::True, OpCode::Not]);
}

#[test]
fn string_constant_drops_the_quotes() {
    let function = compile(r#"print "hi there";"#).unwrap();
    match &function.chunk.constants[0] {
        Constant::Text(text) => assert_eq!(text, &b"hi there".to_vec()),
        _ => panic!("a text"),
    }
}

#[test]
fn locals_live_in_slots_from_one() {
    assert_eq!(
        code("{ var a = 1; var b = 2; a = b; }"),
        vec![
            OpCode::Constant(0),
            OpCode::Constant(1),
            OpCode::GetLocal(2),
            OpCode::SetLocal(1),
            OpCode::Pop,
            OpCode::Pop,
            OpCode::Pop,
            OpCode::Nil,
            OpCode::Return,
        ]
    );
}

#[test]
fn lines_follow_the_source() {
    let function = compile("print 1;\n\nprint 2;\n").unwrap();
    // The closing `Nil` and `Return` carry the line of the end of the source.
    assert_eq!(function.chunk.lines, vec![1, 1, 3, 3, 4, 4]);
}

#[test]
fn while_loops_back_to_its_condition() {
    assert_eq!(
        code("while (true) nil;"),
        vec![
            OpCode::True,
            OpCode::JumpIfFalse(4),
            OpCode::Pop,
            OpCode::Nil,
            OpCode::Pop,
            OpCode::Loop(5),
            OpCode::Pop,
            OpCode::Nil,
            OpCode::Return,
        ]
    );
}

#[test]
fn for_desugars_into_jumps() {
    assert_eq!(
        code("for (var i = 0; i < 5; i = i + 1) print i;"),
        vec![
            OpCode::Constant(0),
            OpCode::GetLocal(1),
            OpCode::Constant(1),
            OpCode::Less,
            OpCode::JumpIfFalse(11),
            OpCode::Pop,
            OpCode::Jump(6),
            OpCode::GetLocal(1),
            OpCode::Constant(2),
            OpCode::Add,
            OpCode::SetLocal(1),
            OpCode::Pop,
            OpCode::Loop(11),
            OpCode::GetLocal(1),
            OpCode::Print,
            OpCode::Loop(8),
            OpCode::Pop,
            OpCode::Pop,
            OpCode::Nil,
            OpCode::Return,
        ]
    );
}

#[test]
fn function_becomes_a_constant_with_its_own_chunk() {
    let function = compile("fun add(a, b) { return a + b; }").unwrap();
    assert_eq!(
        function.chunk.code,
        vec![OpCode::Closure(1), OpCode::DefineGlobal(0), OpCode::Nil, OpCode::Return]
    );
    match &function.chunk.constants[1] {
        Constant::Function(inner) => {
            assert_eq!(inner.arity, 2);
            assert_eq!(inner.name.value, b"add".to_vec());
            assert_eq!(
                inner.chunk.code,
                vec![
                    OpCode::GetLocal(1),
                    OpCode::GetLocal(2),
                    OpCode::Add,
                    OpCode::Return,
                    OpCode::Nil,
                    OpCode::Return,
                ]
            );
        }
        _ => panic!("a function"),
    }
}

#[test]
fn captured_local_becomes_an_upvalue() {
    let function = compile(
        "fun outer() { var x = 1; fun middle() { fun inner() { x = x + 1; } } }",
    )
    .unwrap();
    let outer = match &function.chunk.constants[1] {
        Constant::Function(f) => f.clone(),
        _ => panic!("a function"),
    };
    assert!(outer.upvalues.is_empty());
    // The block of `outer` closes the captured `x` when it ends.
    assert!(outer.chunk.code.contains(&OpCode::Closure(1)));
    let middle = match &outer.chunk.constants[1] {
        Constant::Function(f) => f.clone(),
        _ => panic!("a function"),
    };
    assert_eq!(middle.upvalues.len(), 1);
    assert_eq!((middle.upvalues[0].index, middle.upvalues[0].is_local), (1, true));
    let inner = match &middle.chunk.constants[0] {
        Constant::Function(f) => f.clone(),
        _ => panic!("a function"),
    };
    assert_eq!(inner.upvalues.len(), 1);
    assert_eq!((inner.upvalues[0].index, inner.upvalues[0].is_local), (0, false));
    assert_eq!(
        inner.chunk.code,
        vec![
            OpCode::GetUpvalue(0),
            OpCode::Constant(0),
            OpCode::Add,
            OpCode::SetUpvalue(0),
            OpCode::Pop,
            OpCode::Nil,
            OpCode::Return,
        ]
    );
}

#[test]
fn block_closes_a_captured_local() {
    let function = compile("{ var x = 1; fun f() { print x; } }").unwrap();
    let n = function.chunk.code.len();
    assert_eq!(
        function.chunk.code[n - 4..],
        [OpCode::Pop, OpCode::CloseUpvalue, OpCode::Nil, OpCode::Return]
    );
}

#[test]
fn compiled_programs_are_sound() {
    let sources = [
        "var n = 0; for (var i = 0; i < 5; i = i + 1) { n = n + i; } print n;",
        "fun make(){ var x = 0; fun inc(){ x = x + 1; return x; } return inc; } var c = make(); print c(); print c();",
        "var a = 1; while (a < 6 and a != 5) { a = a + 1; } if (a == 2 or a == 5) print a; else print 0;",
        "for (;;) { if (true) { print 1; } }",
        "fun f(a, b, c) { { var d = a; { var e = b; fun g() { return d + e + c; } return g; } } }",
    ];
    for source in sources.iter() {
        check_sound(&compile(source).unwrap());
    }
}

#[test]
fn locals_256_compile_and_257_do_not() {
    let mut source = String::from("{");
    for i in 0..256 {
        source.push_str(&format!(" var a{};", i));
    }
    let one_more = format!("{} var b; }}", source);
    source.push_str(" }");
    assert!(compile(&source).is_ok());
    assert_eq!(messages(&one_more), vec!["Too many local variables in function"]);
}

#[test]
fn arguments_255_compile_and_256_do_not() {
    let arguments = |n: usize| format!("f({});", vec!["1"; n].join(","));
    let function = compile(&arguments(255)).unwrap();
    assert!(function.chunk.code.contains(&OpCode::Call(255)));
    assert_eq!(messages(&arguments(256)), vec!["Cannot have more than 255 arguments."]);
}

#[test]
fn parameters_255_compile_and_256_do_not() {
    let declaration = |n: usize| {
        let names: Vec<String> = (0..n).map(|i| format!("p{}", i)).collect();
        format!("fun f({}) {{}}", names.join(","))
    };
    assert!(compile(&declaration(255)).is_ok());
    assert_eq!(messages(&declaration(256))[0], "Cannot have more than 255 parameters.");
}

#[test]
fn jump_over_65535_compiles_and_over_65536_does_not() {
    // The jump over the first branch of an `if` skips a `Pop`, the branch and
    // the jump over the second branch.
    let branch = |extra: &str, statements: usize| {
        format!("if (true) {{ {}{} }}", extra, "nil;".repeat(statements))
    };
    let function = compile(&branch("!nil;", 32765)).unwrap();
    assert_eq!(function.chunk.code[1], OpCode::JumpIfFalse(65535));
    check_sound(&function);
    assert_eq!(messages(&branch("", 32767)), vec!["Too much code to jump over."]);
}

#[test]
fn loop_over_65535_compiles_and_over_65536_does_not() {
    // `Loop` goes back over the condition, the exit jump, a `Pop` and the body.
    let body = |extra: &str, statements: usize| {
        format!("while (true) {{ {}{} }}", extra, "nil;".repeat(statements))
    };
    let function = compile(&body("", 32766)).unwrap();
    assert!(function.chunk.code.contains(&OpCode::Loop(65535)));
    check_sound(&function);
    assert_eq!(messages(&body("!nil;", 32765))[0], "Loop body too large.");
}

#[test]
fn errors_are_reported_with_line_and_place() {
    let errors = compile("var a = 1;\nprint ;\n").unwrap_err();
    assert_eq!(errors.len(), 1);
    assert_eq!(errors[0].line, 2);
    assert_eq!(errors[0].place, ErrorPlace::Lexeme { start: 17, length: 1 });
    assert_eq!(errors[0].message, "Expect expression.");
    assert_eq!(
        String::from_utf8(errors[0].render()).unwrap(),
        "[line 2] error at 1 17 : Expect expression."
    );
    let at_end = compile("print 1").unwrap_err();
    assert_eq!(at_end[0].place, ErrorPlace::End);
    assert_eq!(
        String::from_utf8(at_end[0].render()).unwrap(),
        "[line 1] error at end : Expect ';' after value"
    );
    let unknown = compile("print @;").unwrap_err();
    assert_eq!(unknown[0].place, ErrorPlace::Unknown);
    assert_eq!(unknown[0].message, "Unexpected character.");
    assert_eq!(messages("print \"abc;")[0], "Unterminated string.");
}

#[test]
fn each_statement_reports_its_own_error() {
    assert_eq!(
        messages("print 1 1; var = 2; print 3;"),
        vec!["Expect ';' after value", "Expect variable name."]
    );
    // Within one statement only the first error is reported.
    assert_eq!(messages("print (1 + ;"), vec!["Expect expression."]);
}

#[test]
fn compile_error_messages() {
    assert_eq!(messages("1 = 2;"), vec!["Invalid assignment target."]);
    assert_eq!(messages("a + b = 2;"), vec!["Invalid assignment target."]);
    assert_eq!(messages("(1 + 2;"), vec!["Expect ')' after expression"]);
    assert_eq!(messages("{ print 1;"), vec!["Expect '}' after block."]);
    assert_eq!(messages("if true) print 1;"), vec!["Expect '(' after 'if'."]);
    assert_eq!(messages("while (true print 1;"), vec!["Expect ')' after condition."]);
    assert_eq!(messages("for var i = 0;;) print 1;"), vec!["Expect '(' after 'for'."]);
    assert_eq!(messages("fun () {}"), vec!["Expect function name."]);
    assert_eq!(messages("fun f {}"), vec!["Expect '(' after function name."]);
    assert_eq!(messages("fun f(a {}"), vec!["Expect ')' after function name."]);
    // The statement that follows ends the recovery, so the missing brace at
    // the end is reported too.
    assert_eq!(
        messages("fun f() print 1;"),
        vec!["Expect '{' before function body.", "Expect '}' after block."]
    );
    assert_eq!(messages("f(1;"), vec!["Expect ')' after arguments."]);
    assert_eq!(messages("var a = 1"), vec!["Expect ';' after variable declaration."]);
    assert_eq!(messages("1 + 2"), vec!["Expect ';' after expression."]);
    assert_eq!(messages("return 1;"), vec!["Cannot return a value from an initializer."]);
    assert_eq!(
        messages("{ var a = 1; var a = 2; }"),
        vec!["Variable with this name already declared in this scope."]
    );
    assert_eq!(
        messages("{ var a = a; }"),
        vec!["Can't read local variable in its own initializer."]
    );
    // The recovery skips the closing brace, which is then missed.
    assert_eq!(
        messages("fun f() { return 1 }"),
        vec!["Expect ';' after return value.", "Expect '}' after block."]
    );
}

#[test]
fn upvalues_256_compile_and_257_do_not() {
    // `inner` captures the 255 locals of `outer` and, through `outer`, locals
    // of the function around it.
    let mut source = String::from("fun around() { var e0 = 0; var e1 = 0; fun outer() {");
    for i in 0..255 {
        source.push_str(&format!(" var a{} = {};", i, i));
    }
    source.push_str(" fun inner() {");
    for i in 0..255 {
        source.push_str(&format!(" a{};", i));
    }
    let within = format!("{} e0; }} }} }}", source);
    let beyond = format!("{} e0; e1; }} }} }}", source);
    let function = compile(&within).unwrap();
    check_sound(&function);
    assert_eq!(messages(&beyond), vec!["Too many closure variables in function."]);
}

#[test]
fn variable_declared_in_a_block_is_gone_after_it() {
    // Inside the block `a` is a local; after the block the same name is
    // looked up among the globals.
    assert_eq!(
        code("{ var a = 1; print a; } print a;"),
        vec![
            OpCode::Constant(0),
            OpCode::GetLocal(1),
            OpCode::Print,
            OpCode::Pop,
            OpCode::GetGlobal(1),
            OpCode::Print,
            OpCode::Nil,
            OpCode::Return,
        ]
    );
}

#[test]
fn parser_steps_can_be_driven_by_hand() {
    let mut parser = Parser::new(b"1 + 2 ;");
    parser.next_valid_token();
    assert!(parser.check(TokenType::Number));
    parser.expression();
    assert!(parser.match_token(TokenType::Semicolon));
    assert!(!parser.match_token(TokenType::Semicolon));
    assert_eq!(parser.code_len(), 3);
    parser.consume(TokenType::Eof, "Expect end of expression.");
    let function = parser.end_compiler().unwrap();
    assert_eq!(
        function.chunk.code,
        vec![
            OpCode::Constant(0),
            OpCode::Constant(1),
            OpCode::Add,
            OpCode::Nil,
            OpCode::Return,
        ]
    );
}

#[test]
fn scope_exit_pops_or_closes() {
    let mut parser = Parser::new(b"a b");
    parser.next_valid_token();
    parser.next_valid_token();
    assert!(parser.begin_scope());
    parser.add_local(parser.previous);
    parser.mark_initialized();
    parser.next_valid_token();
    parser.add_local(parser.previous);
    parser.mark_initialized();
    parser.compilers[0].locals[0].is_captured = true;
    assert_eq!(parser.compilers[0].locals.len(), 2);
    assert_eq!(parser.compilers[0].resolve_local(b"a b", &parser.previous), Some(1));
    parser.end_scope();
    assert_eq!(parser.compilers[0].locals.len(), 0);
    assert_eq!(parser.compilers[0].scope_depth, 0);
    assert_eq!(parser.compilers[0].function.chunk.code, vec![OpCode::Pop, OpCode::CloseUpvalue]);
    assert_eq!(parser.compilers[0].resolve_local(b"a b", &parser.previous), None);
    assert_eq!(parser.compilers[0].function_type, FunctionType::Script);
}

#[test]
fn upvalues_are_not_added_twice() {
    let mut parser = Parser::new(b"");
    let compiler = &mut parser.compilers[0];
    assert_eq!(compiler.add_upvalue(3, true), Some(0));
    assert_eq!(compiler.add_upvalue(3, false), Some(1));
    assert_eq!(compiler.add_upvalue(3, true), Some(0));
    assert_eq!(compiler.add_upvalue(4, true), Some(2));
    assert_eq!(compiler.function.upvalues.len(), 3);
}

#[test]
fn rules_of_the_tokens() {
    let paren = get_rule(TokenType::LeftParen);
    assert_eq!(paren.prefix, Some(ParseFn::Grouping));
    assert_eq!(paren.infix, Some(ParseFn::Call));
    assert_eq!(paren.precedence, Precedence::Call);
    let minus = get_rule(TokenType::Minus);
    assert_eq!((minus.prefix, minus.infix), (Some(ParseFn::Unary), Some(ParseFn::Binary)));
    assert_eq!(minus.precedence, Precedence::Term);
    assert_eq!(get_rule(TokenType::Star).precedence, Precedence::Factor);
    assert_eq!(get_rule(TokenType::EqualEqual).precedence, Precedence::Equality);
    assert_eq!(get_rule(TokenType::LessEqual).precedence, Precedence::Comparison);
    assert_eq!(get_rule(TokenType::And).infix, Some(ParseFn::And));
    assert_eq!(get_rule(TokenType::Or).precedence, Precedence::Or);
    assert_eq!(get_rule(TokenType::Identifier).prefix, Some(ParseFn::Variable));
    let none = get_rule(TokenType::Semicolon);
    assert_eq!((none.prefix, none.infix, none.precedence), (None, None, Precedence::No));
    assert_eq!(Precedence::Or.rank(), 2);
    assert_eq!(Precedence::Primary.rank(), 10);
}
