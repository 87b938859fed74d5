//! Values, operators and the text of diagnostics.

use rjlox::callable::{Callable, Function};
use rjlox::environment::Environment;
use rjlox::error::{decimal_text, lexer_error, parser_error, report, Error};
use rjlox::interpreter::{binary_operation, unary_operation, Interpreter, Outcome, Signal, Task};
use rjlox::object::{Object, Printable};
use rjlox::token::{Literal, Token, TokenType};

fn operator(token_type: TokenType) -> Token {
    Token::new(token_type, "op".to_string(), Literal::Nil, 4)
}

fn num(bits: u32) -> Object {
    Object::Literal(Literal::Num(bits))
}

fn text(value: &str) -> Object {
    Object::Literal(Literal::Str(value.to_string()))
}

fn truth(value: bool) -> Object {
    Object::Literal(Literal::Bool(value))
}

fn function(name: &str, params: usize) -> Object {
    let names = (0..params)
        .map(|i| Token::new(TokenType::IDENTIFIER, format!("p{}", i), Literal::Nil, 1))
        .collect();
    Object::Callable(Callable::Function(Function::new(
        Token::new(TokenType::IDENTIFIER, name.to_string(), Literal::Nil, 1),
        names,
        vec![],
        Environment { index: 0 },
    )))
}

fn failure_message(outcome: Outcome) -> String {
    match outcome {
        Outcome::Failure(Error::RuntimeError(token, message)) => {
            assert_eq!(token.line, 4);
            message
        }
        other => panic!("{:?}", other),
    }
}

#[test]
fn decimal_numerals() {
    assert_eq!(decimal_text(0), "0");
    assert_eq!(decimal_text(7), "7");
    assert_eq!(decimal_text(10), "10");
    assert_eq!(decimal_text(255), "255");
    assert_eq!(decimal_text(1234567890), "1234567890");
    assert_eq!(decimal_text(usize::MAX), usize::MAX.to_string());
}

#[test]
fn diagnostics_have_one_form() {
    assert_eq!(report(12, " at end", "Message."), "[line 12] Error at end: Message.");
    assert_eq!(lexer_error(3, "Unexpected character."), "[line 3] Error: Unexpected character.");
    let end = Token::new(TokenType::EOF, "".to_string(), Literal::Nil, 9);
    assert_eq!(parser_error(&end, "Expect expression."), "[line 9] Error at end: Expect expression.");
    let plus = Token::new(TokenType::PLUS, "+".to_string(), Literal::Nil, 2);
    assert_eq!(parser_error(&plus, "Expect expression."), "[line 2] Error: Expect expression.");
}

#[test]
fn equality_compares_any_two_values() {
    let equal = |a: Object, b: Object| match binary_operation(&operator(TokenType::EqualEqual), a, b) {
        Outcome::Value(Object::Literal(Literal::Bool(r))) => r,
        other => panic!("{:?}", other),
    };
    assert!(equal(num(5), num(5)));
    assert!(!equal(num(5), num(6)));
    assert!(equal(text("a"), text("a")));
    assert!(!equal(text("a"), text("b")));
    assert!(equal(truth(true), truth(true)));
    assert!(!equal(truth(true), truth(false)));
    assert!(equal(Object::nil(), Object::nil()));
    assert!(!equal(Object::nil(), truth(false)));
    assert!(!equal(num(0), text("0")));
    assert!(!equal(function("f", 0), function("f", 0)));
    assert!(!equal(Object::Callable(Callable::Clock), Object::Callable(Callable::Clock)));
}

#[test]
fn numbers_are_equal_by_their_bit_patterns() {
    let equal = |a: Object, b: Object| match binary_operation(&operator(TokenType::EqualEqual), a, b) {
        Outcome::Value(Object::Literal(Literal::Bool(r))) => r,
        other => panic!("{:?}", other),
    };
    assert!(equal(num(f32::NAN.to_bits()), num(f32::NAN.to_bits())));
    assert!(!equal(num(0.0f32.to_bits()), num((-0.0f32).to_bits())));
}

#[test]
fn inequality_is_the_opposite_of_equality() {
    let differ = |a: Object, b: Object| match binary_operation(&operator(TokenType::BangEqual), a, b) {
        Outcome::Value(Object::Literal(Literal::Bool(r))) => r,
        other => panic!("{:?}", other),
    };
    assert!(!differ(num(5), num(5)));
    assert!(differ(num(5), text("5")));
    assert!(differ(Object::nil(), truth(false)));
}

#[test]
fn arithmetic_on_numbers_is_asked_of_the_caller() {
    for kind in [
        TokenType::PLUS,
        TokenType::MINUS,
        TokenType::STAR,
        TokenType::SLASH,
        TokenType::GREATER,
        TokenType::GreaterEqual,
        TokenType::LESS,
        TokenType::LessEqual,
    ] {
        match binary_operation(&operator(kind), num(1), num(2)) {
            Outcome::Number { operator, left, right } => {
                assert_eq!(operator, kind);
                assert_eq!(left, 1);
                assert_eq!(right, 2);
            }
            other => panic!("{:?}", other),
        }
    }
}

#[test]
fn plus_joins_strings() {
    match binary_operation(&operator(TokenType::PLUS), text("left "), text("right")) {
        Outcome::Value(Object::Literal(Literal::Str(s))) => assert_eq!(s, "left right"),
        other => panic!("{:?}", other),
    }
}

#[test]
fn plus_refuses_mixed_operands() {
    for (a, b) in [
        (num(1), text("a")),
        (text("a"), num(1)),
        (Object::nil(), Object::nil()),
        (truth(true), num(1)),
        (function("f", 0), text("a")),
    ] {
        assert_eq!(
            failure_message(binary_operation(&operator(TokenType::PLUS), a, b)),
            "Operands must be two numbers or two strings."
        );
    }
}

#[test]
fn other_operators_refuse_what_is_no_number() {
    for kind in [
        TokenType::MINUS,
        TokenType::STAR,
        TokenType::SLASH,
        TokenType::GREATER,
        TokenType::GreaterEqual,
        TokenType::LESS,
        TokenType::LessEqual,
    ] {
        assert_eq!(
            failure_message(binary_operation(&operator(kind), text("a"), text("b"))),
            "Operands must be numbers."
        );
        assert_eq!(
            failure_message(binary_operation(&operator(kind), num(1), Object::nil())),
            "Operands must be numbers."
        );
    }
}

#[test]
fn unary_operators() {
    assert!(matches!(
        unary_operation(&operator(TokenType::MINUS), num(9)),
        Outcome::Negate { operand: 9 }
    ));
    assert_eq!(
        failure_message(unary_operation(&operator(TokenType::MINUS), text("a"))),
        "Operand must be a number."
    );
    assert!(matches!(
        unary_operation(&operator(TokenType::BANG), Object::nil()),
        Outcome::Value(Object::Literal(Literal::Bool(true)))
    ));
    assert!(matches!(
        unary_operation(&operator(TokenType::BANG), num(0)),
        Outcome::Value(Object::Literal(Literal::Bool(false)))
    ));
    assert_eq!(
        failure_message(unary_operation(&operator(TokenType::PLUS), num(0))),
        "Operand must be a number."
    );
}

#[test]
fn truthiness_of_each_kind_of_value() {
    assert!(!Object::nil().is_truthy());
    assert!(!truth(false).is_truthy());
    assert!(truth(true).is_truthy());
    assert!(num(0).is_truthy());
    assert!(text("").is_truthy());
    assert!(function("f", 0).is_truthy());
    assert!(Object::Callable(Callable::Clock).is_truthy());
}

#[test]
fn textual_form_of_each_kind_of_value() {
    assert_eq!(Object::nil().printable(), Printable::Text("nil".to_string()));
    assert_eq!(truth(true).printable(), Printable::Text("true".to_string()));
    assert_eq!(truth(false).printable(), Printable::Text("false".to_string()));
    assert_eq!(text("a b").printable(), Printable::Text("a b".to_string()));
    assert_eq!(num(77).printable(), Printable::Number(77));
    assert_eq!(function("area", 2).printable(), Printable::Text("<fn area>".to_string()));
    assert_eq!(
        Object::Callable(Callable::Clock).printable(),
        Printable::Text("<native fn>".to_string())
    );
}

#[test]
fn arity_of_callables() {
    assert_eq!(Callable::Clock.arity(), 0);
    match function("f", 3) {
        Object::Callable(callable) => assert_eq!(callable.arity(), 3),
        other => panic!("{:?}", other),
    }
}

#[test]
fn literal_equality_is_structural() {
    assert!(Literal::Num(1).equals(&Literal::Num(1)));
    assert!(!Literal::Num(1).equals(&Literal::Num(2)));
    assert!(Literal::Str("a".to_string()).equals(&Literal::Str("a".to_string())));
    assert!(!Literal::Str("a".to_string()).equals(&Literal::Bool(true)));
    assert!(Literal::Nil.equals(&Literal::Nil));
    assert!(!Literal::Nil.equals(&Literal::Bool(false)));
    assert!(Literal::Nil.is_nil());
    assert!(!Literal::Num(0).is_nil());
}

#[test]
fn new_interpreter_knows_the_clock() {
    let interpreter = Interpreter::new();
    assert_eq!(interpreter.env, interpreter.globals);
    assert_eq!(interpreter.store.frames.len(), 1);
    assert_eq!(interpreter.store.frames[0].bindings.len(), 1);
    assert_eq!(interpreter.store.frames[0].bindings[0].name, "clock");
    assert!(matches!(
        interpreter.store.frames[0].bindings[0].value,
        Object::Callable(Callable::Clock)
    ));
    assert!(interpreter.locals.is_empty());
}

#[test]
fn call_of_a_function_runs_in_a_child_of_its_closure() {
    let mut interpreter = Interpreter::new();
    let outer = Environment::new(&mut interpreter.store, Some(interpreter.globals));
    let callers = Environment::new(&mut interpreter.store, Some(interpreter.globals));
    interpreter.env = callers;
    let callee = Callable::Function(Function::new(
        Token::new(TokenType::IDENTIFIER, "f".to_string(), Literal::Nil, 1),
        vec![Token::new(TokenType::IDENTIFIER, "a".to_string(), Literal::Nil, 1)],
        vec![],
        outer,
    ));
    assert!(matches!(callee.call(&mut interpreter, vec![num(3)]), Signal::Continue));
    let frame = &interpreter.store.frames[interpreter.env.index];
    assert_eq!(frame.enclosing, Some(outer.index));
    assert_eq!(frame.bindings.len(), 1);
    assert_eq!(frame.bindings[0].name, "a");
    assert!(matches!(interpreter.tasks.last(), Some(Task::Resume(e)) if *e == callers));
    assert!(matches!(interpreter.step(), Signal::Continue));
    assert_eq!(interpreter.env, callers);
    assert!(matches!(interpreter.values.last(), Some(Object::Literal(Literal::Nil))));
}

#[test]
fn call_of_the_clock_asks_for_whole_seconds() {
    let mut interpreter = Interpreter::new();
    match Callable::Clock.call(&mut interpreter, vec![]) {
        Signal::Seconds { whole } => assert!(whole > 1_600_000_000),
        other => panic!("{:?}", other),
    }
}

#[test]
fn execute_block_schedules_the_way_back() {
    let mut interpreter = Interpreter::new();
    let inner = Environment::new(&mut interpreter.store, Some(interpreter.globals));
    let globals = interpreter.globals;
    interpreter.execute_block(&vec![], inner);
    assert_eq!(interpreter.env, inner);
    assert!(matches!(interpreter.tasks.last(), Some(Task::Leave(e)) if *e == globals));
    assert!(matches!(interpreter.step(), Signal::Continue));
    assert_eq!(interpreter.env, globals);
    assert!(matches!(interpreter.step(), Signal::Done));
}

#[test]
fn resolve_records_a_distance() {
    let mut interpreter = Interpreter::new();
    interpreter.resolve(4, 2);
    interpreter.resolve(4, 3);
    interpreter.resolve(5, 0);
    assert_eq!(interpreter.locals.get(&4), Some(&3));
    assert_eq!(interpreter.locals.get(&5), Some(&0));
    assert_eq!(interpreter.locals.len(), 2);
}

#[test]
fn an_absent_operand_reads_as_nil() {
    let mut interpreter = Interpreter::new();
    interpreter.tasks.push(Task::Print);
    assert!(matches!(interpreter.step(), Signal::Print(Printable::Text(text)) if text == "nil"));
}
