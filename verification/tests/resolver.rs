//! The resolver: the distances it records and the errors it finds.

use rjlox::error::Error;
use rjlox::interpreter::Interpreter;
use rjlox::parser::Parser;
use rjlox::resolver::{FunctionType, Resolver};
use rjlox::scanner::Scanner;
use rjlox::stmt::Stmt;
use rjlox::token::Token;

fn scan(source: &str) -> Vec<Token> {
    let mut scanner = Scanner::new(source.to_string());
    while let Some(text) = scanner.scan_tokens() {
        scanner.number(text.parse::<f32>().unwrap().to_bits());
    }
    scanner.tokens()
}

fn parse(source: &str) -> Vec<Stmt> {
    Parser::new(scan(source)).parse().unwrap()
}

/// The table after resolving a program, as pairs of the position of a
/// name among the tokens and the distance recorded for it, in order.
fn table(source: &str) -> Vec<(usize, usize)> {
    let mut interpreter = Interpreter::new();
    let mut resolver = Resolver::new();
    resolver.resolve_statements(&mut interpreter, &parse(source)).unwrap();
    let mut entries: Vec<(usize, usize)> =
        interpreter.locals.iter().map(|(id, depth)| (*id, *depth)).collect();
    entries.sort();
    entries
}

fn refusal(source: &str) -> (String, usize) {
    let mut interpreter = Interpreter::new();
    let mut resolver = Resolver::new();
    match resolver.resolve_statements(&mut interpreter, &parse(source)) {
        Err(Error::ResolveError(token, message)) => (message, token.line),
        other => panic!("{:?}", other),
    }
}

#[test]
fn globals_get_no_entry() {
    assert_eq!(table("var a = 1; print a; a = 2;"), vec![]);
}

#[test]
fn local_in_its_own_scope_is_at_distance_zero() {
    assert_eq!(table("{ var a = 1; print a; }"), vec![(7, 0)]);
}

#[test]
fn distance_counts_the_scopes_between() {
    assert_eq!(table("{ var a = 1; { { print a; } } }"), vec![(9, 2)]);
}

#[test]
fn innermost_declaration_wins() {
    assert_eq!(
        table("{ var a = 1; { var a = 2; print a; } print a; }"),
        vec![(13, 0), (17, 0)]
    );
    assert_eq!(
        table("{ var a = 1; { var b = 2; { var a = 3; } print a; } }"),
        vec![(20, 1)]
    );
}

#[test]
fn assignment_is_recorded_under_its_own_identity() {
    assert_eq!(table("{ var a = 1; { a = a + 1; } }"), vec![(7, 1), (9, 1)]);
}

#[test]
fn parameters_live_in_the_scope_of_the_body() {
    assert_eq!(table("fun f(a, b) { print a; { print b; } }"), vec![(9, 0), (13, 1)]);
}

#[test]
fn function_may_refer_to_itself() {
    assert_eq!(table("{ fun f() { f(); } }"), vec![(6, 1)]);
}

#[test]
fn reference_before_a_later_declaration_is_global() {
    let source = "var a = 1; { fun show() { print a; } var a = 2; print a; }";
    assert_eq!(table(source), vec![(21, 0)]);
}

#[test]
fn resolving_twice_leaves_the_same_table() {
    let statements = parse("{ var a = 1; { var b = a; fun f(c) { return a + b + c; } } }");
    let mut interpreter = Interpreter::new();
    Resolver::new().resolve_statements(&mut interpreter, &statements).unwrap();
    let once = interpreter.locals.clone();
    Resolver::new().resolve_statements(&mut interpreter, &statements).unwrap();
    assert_eq!(interpreter.locals, once);
    let mut other = Interpreter::new();
    Resolver::new().resolve_statements(&mut other, &statements).unwrap();
    assert_eq!(other.locals, once);
}

#[test]
fn resolver_is_as_new_after_a_program() {
    let mut interpreter = Interpreter::new();
    let mut resolver = Resolver::new();
    let statements = parse("{ var a = 1; fun f() { return a; } }");
    resolver.resolve_statements(&mut interpreter, &statements).unwrap();
    assert!(resolver.scopes.is_empty());
    assert_eq!(resolver.current_function, FunctionType::NONE);
}

#[test]
fn reading_a_local_in_its_own_initializer() {
    assert_eq!(
        refusal("var a = 1;\n{ var a = a; }"),
        ("Cannot read local variable in its own initializer.".to_string(), 2)
    );
}

#[test]
fn global_may_be_read_in_its_own_initializer() {
    assert_eq!(table("var a = a;"), vec![]);
}

#[test]
fn declaring_a_local_twice() {
    assert_eq!(
        refusal("{ var a = 1;\nvar a = 2; }"),
        ("Already a variable with this name in this scope.".to_string(), 2)
    );
    assert_eq!(
        refusal("fun f(a, a) {}").0,
        "Already a variable with this name in this scope."
    );
    assert_eq!(
        refusal("fun f(a) { var a = 1; }").0,
        "Already a variable with this name in this scope."
    );
}

#[test]
fn declaring_a_global_twice_is_no_error() {
    assert_eq!(table("var a = 1; var a = 2; fun a() {}"), vec![]);
}

#[test]
fn shadowing_in_an_inner_scope_is_no_error() {
    assert_eq!(table("{ var a = 1; { var a = 2; } }"), vec![]);
}

#[test]
fn return_at_the_top_level() {
    assert_eq!(
        refusal("print 1;\nreturn 1;"),
        ("Can't return from top-level code.".to_string(), 2)
    );
    assert_eq!(refusal("{ return; }").0, "Can't return from top-level code.");
    assert_eq!(refusal("fun f() {} return;").0, "Can't return from top-level code.");
}

#[test]
fn return_inside_a_function() {
    assert_eq!(table("fun f() { return; } fun g() { if (true) { return 1; } }"), vec![]);
}

#[test]
fn resolution_stops_at_the_first_error() {
    let mut interpreter = Interpreter::new();
    let mut resolver = Resolver::new();
    let statements = parse("{ var a = 1; print a; return; print a; }");
    assert!(resolver.resolve_statements(&mut interpreter, &statements).is_err());
    assert_eq!(interpreter.locals.len(), 1);
}

#[test]
fn resolver_touches_nothing_but_the_table() {
    let mut interpreter = Interpreter::new();
    let before = interpreter.env;
    Resolver::new().resolve_statements(&mut interpreter, &parse("{ var a; a; }")).unwrap();
    assert_eq!(interpreter.env, before);
    assert_eq!(interpreter.globals, before);
    assert!(interpreter.tasks.is_empty());
    assert!(interpreter.values.is_empty());
    assert_eq!(interpreter.store.frames.len(), 1);
}
