//! Whole programs: from source text to what they print.

use rjlox::error::Error;
use rjlox::interpreter::{Interpreter, Signal};
use rjlox::object::{Object, Printable};
use rjlox::parser::Parser;
use rjlox::resolver::Resolver;
use rjlox::scanner::Scanner;
use rjlox::token::{Literal, Token, TokenType};

fn scan(source: &str) -> Vec<Token> {
    let mut scanner = Scanner::new(source.to_string());
    while let Some(text) = scanner.scan_tokens() {
        scanner.number(text.parse::<f32>().unwrap().to_bits());
    }
    scanner.tokens()
}

fn number(value: f32) -> Object {
    Object::Literal(Literal::Num(value.to_bits()))
}

fn answer(operator: TokenType, left: u32, right: u32) -> Object {
    let a = f32::from_bits(left);
    let b = f32::from_bits(right);
    match operator {
        TokenType::PLUS => number(a + b),
        TokenType::MINUS => number(a - b),
        TokenType::STAR => number(a * b),
        TokenType::SLASH => number(a / b),
        TokenType::GREATER => Object::Literal(Literal::Bool(a > b)),
        TokenType::GreaterEqual => Object::Literal(Literal::Bool(a >= b)),
        TokenType::LESS => Object::Literal(Literal::Bool(a < b)),
        TokenType::LessEqual => Object::Literal(Literal::Bool(a <= b)),
        _ => unreachable!(),
    }
}

/// Runs the statements that are scheduled; returns the lines printed and
/// the errors that ended statements.
fn drive(interpreter: &mut Interpreter) -> (Vec<String>, Vec<Error>) {
    let mut lines = Vec::new();
    let mut faults = Vec::new();
    loop {
        match interpreter.run(1_000_000) {
            Signal::Continue => {}
            Signal::Done => break,
            Signal::Number { operator, left, right } => {
                interpreter.supply(answer(operator, left, right))
            }
            Signal::Negate { operand } => interpreter.supply(number(-f32::from_bits(operand))),
            Signal::Seconds { whole } => interpreter.supply(number(whole as f32)),
            Signal::Print(Printable::Text(text)) => lines.push(text),
            Signal::Print(Printable::Number(bits)) => {
                lines.push(format!("{}", f32::from_bits(bits)))
            }
            Signal::Fault(error) => faults.push(error),
        }
    }
    (lines, faults)
}

fn run(source: &str) -> (Vec<String>, Vec<Error>) {
    let mut parser = Parser::new(scan(source));
    let statements = parser.parse().unwrap();
    let mut interpreter = Interpreter::new();
    let mut resolver = Resolver::new();
    resolver.resolve_statements(&mut interpreter, &statements).unwrap();
    interpreter.interpret(statements);
    drive(&mut interpreter)
}

fn prints(source: &str) -> Vec<String> {
    let (lines, faults) = run(source);
    assert!(faults.is_empty(), "{:?}", faults);
    lines
}

fn fault_message(source: &str) -> String {
    let (_, faults) = run(source);
    assert_eq!(faults.len(), 1);
    match &faults[0] {
        Error::RuntimeError(_, message) => message.clone(),
        other => panic!("{:?}", other),
    }
}

#[test]
fn prints_a_sum() {
    assert_eq!(prints("print 1 + 2;"), vec!["3"]);
}

#[test]
fn joins_strings() {
    assert_eq!(
        prints("var a = \"hello\"; var b = \" world\"; print a + b;"),
        vec!["hello world"]
    );
}

#[test]
fn block_shadows_and_restores() {
    assert_eq!(prints("var a = 1; { var a = 2; print a; } print a;"), vec!["2", "1"]);
}

#[test]
fn closure_counter() {
    let source = "fun makeCounter() { var i = 0; fun count() { i = i + 1; print i; } return count; }
                  var c = makeCounter(); c(); c();";
    assert_eq!(prints(source), vec!["1", "2"]);
}

#[test]
fn closure_sees_the_binding_of_its_declaration() {
    let source = "var a = \"global\"; { fun show() { print a; } show(); var a = \"local\"; show(); }";
    assert_eq!(prints(source), vec!["global", "global"]);
}

#[test]
fn arity_mismatch_is_a_runtime_error() {
    assert_eq!(fault_message("fun f(a,b){} f(1);"), "Expected 2 arguments but got 1.");
}

#[test]
fn arity_mismatch_with_too_many_arguments() {
    assert_eq!(fault_message("fun f(){} f(1, 2, 3);"), "Expected 0 arguments but got 3.");
}

#[test]
fn clock_takes_no_argument() {
    assert_eq!(fault_message("clock(1);"), "Expected 0 arguments but got 1.");
}

#[test]
fn clock_returns_a_number() {
    assert_eq!(prints("print clock() >= 0;"), vec!["true"]);
}

#[test]
fn or_skips_its_right_operand_after_a_truthy_left() {
    let source = "fun noisy() { print \"called\"; return true; }
                  print 1 or noisy(); print nil or noisy(); print false or 2;";
    assert_eq!(prints(source), vec!["1", "called", "true", "2"]);
}

#[test]
fn and_skips_its_right_operand_after_a_falsy_left() {
    let source = "fun noisy() { print \"called\"; return 7; }
                  print nil and noisy(); print false and noisy(); print 1 and noisy();";
    assert_eq!(prints(source), vec!["nil", "false", "called", "7"]);
}

#[test]
fn function_sees_its_textual_scope_not_its_callers() {
    let source = "var x = \"outer\";
                  fun show() { print x; }
                  fun caller() { var x = \"inner\"; show(); }
                  caller();";
    assert_eq!(prints(source), vec!["outer"]);
}

#[test]
fn counters_are_independent() {
    let source = "fun makeCounter() { var i = 0; fun count() { i = i + 1; return i; } return count; }
                  var a = makeCounter(); var b = makeCounter();
                  print a(); print a(); print b();";
    assert_eq!(prints(source), vec!["1", "2", "1"]);
}

#[test]
fn environment_is_restored_after_a_block() {
    let mut interpreter = Interpreter::new();
    let statements = Parser::new(scan("{ var a = 1; { var b = 2; } }")).parse().unwrap();
    let before = interpreter.env;
    interpreter.interpret(statements);
    let (_, faults) = drive(&mut interpreter);
    assert!(faults.is_empty());
    assert_eq!(interpreter.env, before);
}

#[test]
fn environment_is_restored_after_an_error_in_a_call() {
    let mut interpreter = Interpreter::new();
    let source = "fun f() { { var a = 1; print a + nil; } } f(); print 2;";
    let statements = Parser::new(scan(source)).parse().unwrap();
    let before = interpreter.env;
    interpreter.interpret(statements);
    let (lines, faults) = drive(&mut interpreter);
    assert_eq!(faults.len(), 1);
    assert_eq!(lines, vec!["2"]);
    assert_eq!(interpreter.env, before);
}

#[test]
fn environment_is_restored_after_a_return() {
    let mut interpreter = Interpreter::new();
    let source = "fun f() { { { return 1; } } } print f();";
    let statements = Parser::new(scan(source)).parse().unwrap();
    let before = interpreter.env;
    interpreter.interpret(statements);
    let (lines, faults) = drive(&mut interpreter);
    assert!(faults.is_empty());
    assert_eq!(lines, vec!["1"]);
    assert_eq!(interpreter.env, before);
}

#[test]
fn arithmetic_and_precedence() {
    assert_eq!(prints("print 1 + 2 * 3 - 8 / 4;"), vec!["5"]);
    assert_eq!(prints("print (1 + 2) * 3;"), vec!["9"]);
    assert_eq!(prints("print -3 + 1;"), vec!["-2"]);
    assert_eq!(prints("print 0.5 + 0.25;"), vec!["0.75"]);
}

#[test]
fn division_by_zero_is_no_error() {
    assert_eq!(prints("print 1 / 0;"), vec!["inf"]);
}

#[test]
fn comparisons() {
    assert_eq!(
        prints("print 1 < 2; print 2 <= 2; print 1 > 2; print 2 >= 3;"),
        vec!["true", "true", "false", "false"]
    );
}

#[test]
fn equality_of_values() {
    let source = "print 1 == 1; print 1 == 2; print \"a\" == \"a\"; print nil == nil;
                  print true == true; print 1 == \"1\"; print nil == false; print 1 != 2;
                  print \"a\" != \"a\";";
    assert_eq!(
        prints(source),
        vec!["true", "false", "true", "true", "true", "false", "false", "true", "false"]
    );
}

#[test]
fn truthiness() {
    let source = "print !nil; print !false; print !true; print !0; print !\"\"; print !clock;";
    assert_eq!(prints(source), vec!["true", "true", "false", "false", "false", "false"]);
}

#[test]
fn prints_each_kind_of_value() {
    let source = "fun f() {} print nil; print true; print false; print \"text\"; print 12;
                  print 2.5; print f; print clock;";
    assert_eq!(
        prints(source),
        vec!["nil", "true", "false", "text", "12", "2.5", "<fn f>", "<native fn>"]
    );
}

#[test]
fn if_takes_one_branch() {
    assert_eq!(prints("if (1 < 2) print \"then\"; else print \"else\";"), vec!["then"]);
    assert_eq!(prints("if (1 > 2) print \"then\"; else print \"else\";"), vec!["else"]);
    assert_eq!(prints("if (nil) print \"then\"; print \"after\";"), vec!["after"]);
}

#[test]
fn while_loop_counts() {
    assert_eq!(
        prints("var i = 0; while (i < 3) { print i; i = i + 1; }"),
        vec!["0", "1", "2"]
    );
}

#[test]
fn for_loop_counts() {
    assert_eq!(prints("for (var i = 0; i < 3; i = i + 1) print i;"), vec!["0", "1", "2"]);
}

#[test]
fn for_loop_without_initializer_and_increment() {
    assert_eq!(prints("var i = 2; for (; i > 0;) { print i; i = i - 1; }"), vec!["2", "1"]);
}

#[test]
fn recursion() {
    let source = "fun fib(n) { if (n < 2) return n; return fib(n - 1) + fib(n - 2); } print fib(10);";
    assert_eq!(prints(source), vec!["55"]);
}

#[test]
fn function_without_return_yields_nil() {
    assert_eq!(prints("fun f() { 1 + 1; } print f();"), vec!["nil"]);
    assert_eq!(prints("fun g() { return; } print g();"), vec!["nil"]);
}

#[test]
fn arguments_are_evaluated_left_to_right() {
    let source = "fun show(x) { print x; return x; } fun f(a, b, c) { print a + b + c; }
                  f(show(1), show(2), show(3));";
    assert_eq!(prints(source), vec!["1", "2", "3", "6"]);
}

#[test]
fn calls_chain_from_the_left() {
    let source = "fun a() { fun b() { fun c() { return \"deep\"; } return c; } return b; }
                  print a()()();";
    assert_eq!(prints(source), vec!["deep"]);
}

#[test]
fn assignment_yields_the_assigned_value() {
    assert_eq!(prints("var a = 1; var b = 2; print a = b = 3; print a; print b;"), vec!["3", "3", "3"]);
}

#[test]
fn assignment_in_a_nested_scope_reaches_the_declaration() {
    let source = "var a = 1; { var b = 2; { a = 5; b = 6; } print b; } print a;";
    assert_eq!(prints(source), vec!["6", "5"]);
}

#[test]
fn variable_without_initializer_is_nil() {
    assert_eq!(prints("var a; print a;"), vec!["nil"]);
}

#[test]
fn global_may_be_declared_again() {
    assert_eq!(prints("var a = 1; var a = 2; print a;"), vec!["2"]);
}

#[test]
fn undefined_variable_read() {
    assert_eq!(fault_message("print missing;"), "Undefined variable 'missing'.");
}

#[test]
fn undefined_variable_write() {
    assert_eq!(fault_message("missing = 1;"), "Undefined variable 'missing'.");
}

#[test]
fn adding_a_number_and_a_string_fails() {
    assert_eq!(fault_message("print 1 + \"a\";"), "Operands must be two numbers or two strings.");
}

#[test]
fn subtracting_strings_fails() {
    assert_eq!(fault_message("print \"a\" - \"b\";"), "Operands must be numbers.");
}

#[test]
fn comparing_strings_fails() {
    assert_eq!(fault_message("print \"a\" < \"b\";"), "Operands must be numbers.");
}

#[test]
fn negating_a_string_fails() {
    assert_eq!(fault_message("print -\"a\";"), "Operand must be a number.");
}

#[test]
fn calling_a_number_fails() {
    assert_eq!(fault_message("var a = 1; a();"), "Can only call functions and classes.");
}

#[test]
fn runtime_error_names_the_token_and_line() {
    let (_, faults) = run("var a = 1;\nprint a +\n nil;");
    match &faults[0] {
        Error::RuntimeError(token, _) => {
            assert_eq!(token.token_type, TokenType::PLUS);
            assert_eq!(token.line, 2);
        }
        other => panic!("{:?}", other),
    }
}

#[test]
fn error_ends_one_statement_only() {
    let (lines, faults) = run("print 1; print nil + 1; print 2;");
    assert_eq!(lines, vec!["1", "2"]);
    assert_eq!(faults.len(), 1);
}

#[test]
fn later_programs_see_earlier_definitions() {
    let mut interpreter = Interpreter::new();
    let mut base = 0;
    let mut lines = Vec::new();
    for source in ["var a = 1; fun inc() { a = a + 1; return a; }", "print inc();", "{ var a = 10; print inc(); print a; }"] {
        let tokens = scan(source);
        let count = tokens.len();
        let mut parser = Parser::with_base(tokens, base);
        base += count;
        let statements = parser.parse().unwrap();
        let mut resolver = Resolver::new();
        resolver.resolve_statements(&mut interpreter, &statements).unwrap();
        interpreter.interpret(statements);
        let (mut printed, faults) = drive(&mut interpreter);
        assert!(faults.is_empty());
        lines.append(&mut printed);
    }
    assert_eq!(lines, vec!["2", "3", "10"]);
}

#[test]
fn budget_pauses_a_run() {
    let mut interpreter = Interpreter::new();
    let statements = Parser::new(scan("while (true) {}")).parse().unwrap();
    interpreter.interpret(statements);
    assert!(matches!(interpreter.run(1000), Signal::Continue));
    assert!(matches!(interpreter.run(1000), Signal::Continue));
}

#[test]
fn step_on_an_idle_interpreter_is_done() {
    let mut interpreter = Interpreter::new();
    assert!(matches!(interpreter.step(), Signal::Done));
    assert!(matches!(interpreter.run(10), Signal::Done));
}

/// Runs a program in a new interpreter, which is returned with the lines
/// printed.
fn run_in_new(source: &str) -> (Interpreter, Vec<String>) {
    let mut parser = Parser::new(scan(source));
    let statements = parser.parse().unwrap();
    let mut interpreter = Interpreter::new();
    Resolver::new().resolve_statements(&mut interpreter, &statements).unwrap();
    interpreter.interpret(statements);
    let (lines, _) = drive(&mut interpreter);
    (interpreter, lines)
}

#[test]
fn environment_of_a_block_is_destroyed_at_its_end() {
    let (interpreter, lines) = run_in_new("{ var a = 1; { var b = 2; print a + b; } }");
    assert_eq!(lines, vec!["3"]);
    assert_eq!(interpreter.store.frames.len(), 1);
}

#[test]
fn environments_of_a_loop_do_not_pile_up() {
    let source = "var sum = 0; for (var i = 0; i < 1000; i = i + 1) { var twice = i * 2; sum = sum + twice; }
                  print sum;";
    let (interpreter, lines) = run_in_new(source);
    assert_eq!(lines, vec!["999000"]);
    assert_eq!(interpreter.store.frames.len(), 1);
}

#[test]
fn environments_of_calls_are_destroyed_at_their_end() {
    let source = "fun fib(n) { if (n < 2) return n; return fib(n - 1) + fib(n - 2); } print fib(12);";
    let (interpreter, lines) = run_in_new(source);
    assert_eq!(lines, vec!["144"]);
    assert_eq!(interpreter.store.frames.len(), 1);
}

#[test]
fn environment_that_a_function_holds_stays() {
    let source = "fun makeCounter() { var i = 0; fun count() { i = i + 1; return i; } return count; }
                  var c = makeCounter(); { var x = 1; } print c(); print c();";
    let (interpreter, lines) = run_in_new(source);
    assert_eq!(lines, vec!["1", "2"]);
    assert_eq!(interpreter.store.frames.len(), 2);
    assert!(interpreter.store.frames[1].captured);
    assert_eq!(interpreter.store.frames[1].bindings[0].name, "i");
}

#[test]
fn environments_are_destroyed_after_an_error() {
    let source = "fun f() { { var a = 1; { print a + nil; } } } f(); print 1;";
    let (interpreter, lines) = run_in_new(source);
    assert_eq!(lines, vec!["1"]);
    assert_eq!(interpreter.store.frames.len(), 1);
}

#[test]
fn environments_are_destroyed_after_a_return_from_within_blocks() {
    let source = "fun f() { { { return 1; } } } print f(); { var a = 2; print a; }";
    let (interpreter, lines) = run_in_new(source);
    assert_eq!(lines, vec!["1", "2"]);
    assert_eq!(interpreter.store.frames.len(), 1);
}

#[test]
fn closures_made_in_a_loop_keep_their_own_environments() {
    let source = "var first; var second;
                  for (var i = 0; i < 2; i = i + 1) {
                      var mine = i * 10;
                      fun get() { return mine; }
                      if (i == 0) first = get; else second = get;
                  }
                  { var noise = 99; print noise; }
                  print first(); print second();";
    let (_, lines) = run_in_new(source);
    assert_eq!(lines, vec!["99", "0", "10"]);
}

#[test]
fn return_that_reaches_the_top_level_ends_the_statement() {
    let mut interpreter = Interpreter::new();
    let statements = Parser::new(scan("{ return 7; print 1; } print 2;")).parse().unwrap();
    let before = interpreter.env;
    interpreter.interpret(statements);
    let (lines, faults) = drive(&mut interpreter);
    assert_eq!(lines, vec!["2"]);
    assert_eq!(faults.len(), 1);
    assert!(matches!(
        &faults[0],
        Error::Return(Object::Literal(Literal::Num(bits))) if *bits == 7.0f32.to_bits()
    ));
    assert_eq!(interpreter.env, before);
    assert_eq!(interpreter.store.frames.len(), 1);
}

#[test]
fn statements_run_in_the_order_of_the_program() {
    let mut interpreter = Interpreter::new();
    interpreter.interpret(Parser::new(scan("print 1; print 2;")).parse().unwrap());
    interpreter.interpret(Parser::new(scan("print 3;")).parse().unwrap());
    let (lines, _) = drive(&mut interpreter);
    assert_eq!(lines, vec!["3", "1", "2"]);
}
