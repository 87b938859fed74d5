//! Environments: definitions, lookups along the chain, and sharing.

use rjlox::environment::{undefined, Environment, Store};
use rjlox::error::Error;
use rjlox::object::Object;
use rjlox::token::{Literal, Token, TokenType};

fn name(text: &str) -> Token {
    Token::new(TokenType::IDENTIFIER, text.to_string(), Literal::Nil, 3)
}

fn text(value: &str) -> Object {
    Object::Literal(Literal::Str(value.to_string()))
}

fn read(environment: Environment, store: &Store, variable: &str) -> Option<String> {
    match environment.get(store, &name(variable)) {
        Ok(Object::Literal(Literal::Str(value))) => Some(value),
        Ok(other) => panic!("{:?}", other),
        Err(_) => None,
    }
}

#[test]
fn new_environments_are_numbered_in_order() {
    let mut store = Store::new();
    let globals = Environment::new(&mut store, None);
    let inner = Environment::new(&mut store, Some(globals));
    assert_eq!(globals.index, 0);
    assert_eq!(inner.index, 1);
    assert_eq!(store.frames[1].enclosing, Some(0));
    assert_eq!(store.frames[0].enclosing, None);
    assert_eq!(store.parent_of(1), Some(0));
    assert_eq!(store.parent_of(0), None);
    assert_eq!(store.parent_of(7), None);
}

#[test]
fn define_then_get() {
    let mut store = Store::new();
    let env = Environment::new(&mut store, None);
    env.define(&mut store, "a".to_string(), &text("one"));
    assert_eq!(read(env, &store, "a"), Some("one".to_string()));
}

#[test]
fn define_again_overwrites() {
    let mut store = Store::new();
    let env = Environment::new(&mut store, None);
    env.define(&mut store, "a".to_string(), &text("one"));
    env.define(&mut store, "b".to_string(), &text("other"));
    env.define(&mut store, "a".to_string(), &text("two"));
    assert_eq!(read(env, &store, "a"), Some("two".to_string()));
    assert_eq!(read(env, &store, "b"), Some("other".to_string()));
    assert_eq!(store.frames[0].bindings.len(), 2);
}

#[test]
fn get_walks_outward() {
    let mut store = Store::new();
    let globals = Environment::new(&mut store, None);
    let middle = Environment::new(&mut store, Some(globals));
    let inner = Environment::new(&mut store, Some(middle));
    globals.define(&mut store, "a".to_string(), &text("global"));
    middle.define(&mut store, "b".to_string(), &text("middle"));
    assert_eq!(read(inner, &store, "a"), Some("global".to_string()));
    assert_eq!(read(inner, &store, "b"), Some("middle".to_string()));
    assert_eq!(read(globals, &store, "b"), None);
}

#[test]
fn inner_definition_shadows() {
    let mut store = Store::new();
    let globals = Environment::new(&mut store, None);
    let inner = Environment::new(&mut store, Some(globals));
    globals.define(&mut store, "a".to_string(), &text("global"));
    inner.define(&mut store, "a".to_string(), &text("inner"));
    assert_eq!(read(inner, &store, "a"), Some("inner".to_string()));
    assert_eq!(read(globals, &store, "a"), Some("global".to_string()));
}

#[test]
fn get_of_an_undefined_variable() {
    let mut store = Store::new();
    let env = Environment::new(&mut store, None);
    match env.get(&store, &name("missing")) {
        Err(Error::RuntimeError(token, message)) => {
            assert_eq!(token, name("missing"));
            assert_eq!(message, "Undefined variable 'missing'.");
        }
        other => panic!("{:?}", other),
    }
    match undefined(&name("x")) {
        Error::RuntimeError(_, message) => assert_eq!(message, "Undefined variable 'x'."),
        other => panic!("{:?}", other),
    }
}

#[test]
fn assign_updates_the_nearest_binding() {
    let mut store = Store::new();
    let globals = Environment::new(&mut store, None);
    let middle = Environment::new(&mut store, Some(globals));
    let inner = Environment::new(&mut store, Some(middle));
    globals.define(&mut store, "a".to_string(), &text("global"));
    middle.define(&mut store, "a".to_string(), &text("middle"));
    assert!(inner.assign(&mut store, &name("a"), &text("new")).is_ok());
    assert_eq!(read(middle, &store, "a"), Some("new".to_string()));
    assert_eq!(read(globals, &store, "a"), Some("global".to_string()));
    assert!(store.frames[2].bindings.is_empty());
}

#[test]
fn assign_to_an_undefined_variable_fails_and_defines_nothing() {
    let mut store = Store::new();
    let globals = Environment::new(&mut store, None);
    let inner = Environment::new(&mut store, Some(globals));
    match inner.assign(&mut store, &name("a"), &text("new")) {
        Err(Error::RuntimeError(_, message)) => assert_eq!(message, "Undefined variable 'a'."),
        other => panic!("{:?}", other),
    }
    assert_eq!(read(inner, &store, "a"), None);
    assert!(store.frames[0].bindings.is_empty());
    assert!(store.frames[1].bindings.is_empty());
}

#[test]
fn get_at_reads_one_environment_only() {
    let mut store = Store::new();
    let globals = Environment::new(&mut store, None);
    let middle = Environment::new(&mut store, Some(globals));
    let inner = Environment::new(&mut store, Some(middle));
    globals.define(&mut store, "a".to_string(), &text("global"));
    middle.define(&mut store, "a".to_string(), &text("middle"));
    inner.define(&mut store, "b".to_string(), &text("inner"));
    let a = "a".to_string();
    let b = "b".to_string();
    assert!(matches!(inner.get_at(&store, 0, &a), None));
    assert!(matches!(inner.get_at(&store, 0, &b), Some(Object::Literal(Literal::Str(v))) if v == "inner"));
    assert!(matches!(inner.get_at(&store, 1, &a), Some(Object::Literal(Literal::Str(v))) if v == "middle"));
    assert!(matches!(inner.get_at(&store, 2, &a), Some(Object::Literal(Literal::Str(v))) if v == "global"));
    assert!(matches!(inner.get_at(&store, 2, &b), None));
    assert!(matches!(inner.get_at(&store, 3, &a), None));
    assert_eq!(store.ancestor_of(2, 0), Some(2));
    assert_eq!(store.ancestor_of(2, 2), Some(0));
    assert_eq!(store.ancestor_of(2, 3), None);
}

#[test]
fn assign_at_writes_one_environment_only() {
    let mut store = Store::new();
    let globals = Environment::new(&mut store, None);
    let inner = Environment::new(&mut store, Some(globals));
    globals.define(&mut store, "a".to_string(), &text("global"));
    inner.define(&mut store, "a".to_string(), &text("inner"));
    assert_eq!(inner.assign_at(&mut store, 1, &name("a"), &text("new")), Some(()));
    assert_eq!(read(globals, &store, "a"), Some("new".to_string()));
    assert_eq!(read(inner, &store, "a"), Some("inner".to_string()));
    assert_eq!(inner.assign_at(&mut store, 0, &name("b"), &text("new")), None);
    assert_eq!(inner.assign_at(&mut store, 5, &name("a"), &text("new")), None);
    assert_eq!(read(inner, &store, "b"), None);
}

#[test]
fn writes_through_one_reference_are_seen_through_another() {
    let mut store = Store::new();
    let globals = Environment::new(&mut store, None);
    let shared = Environment::new(&mut store, Some(globals));
    let first = Environment::new(&mut store, Some(shared));
    let second = Environment::new(&mut store, Some(shared));
    shared.define(&mut store, "count".to_string(), &text("0"));
    first.assign(&mut store, &name("count"), &text("1")).unwrap();
    assert_eq!(read(second, &store, "count"), Some("1".to_string()));
    let copy = shared;
    copy.define(&mut store, "other".to_string(), &text("x"));
    assert_eq!(read(first, &store, "other"), Some("x".to_string()));
}

#[test]
fn an_environment_that_is_not_in_the_store_binds_nothing() {
    let mut store = Store::new();
    let stray = Environment { index: 4 };
    stray.define(&mut store, "a".to_string(), &text("x"));
    assert!(store.frames.is_empty());
    assert_eq!(read(stray, &store, "a"), None);
    assert!(stray.assign(&mut store, &name("a"), &text("x")).is_err());
}

#[test]
fn release_destroys_the_youngest_environment_only() {
    let mut store = Store::new();
    let globals = Environment::new(&mut store, None);
    let middle = Environment::new(&mut store, Some(globals));
    let inner = Environment::new(&mut store, Some(middle));
    store.release(middle.index, globals.index);
    assert_eq!(store.frames.len(), 3);
    store.release(inner.index, middle.index);
    assert_eq!(store.frames.len(), 2);
    store.release(middle.index, middle.index);
    assert_eq!(store.frames.len(), 2);
    store.release(middle.index, globals.index);
    assert_eq!(store.frames.len(), 1);
    store.release(globals.index, globals.index);
    assert_eq!(store.frames.len(), 1);
    store.release(5, 0);
    assert_eq!(store.frames.len(), 1);
}

#[test]
fn release_spares_an_environment_that_a_function_holds() {
    let mut store = Store::new();
    let globals = Environment::new(&mut store, None);
    let inner = Environment::new(&mut store, Some(globals));
    assert!(!store.frames[1].captured);
    store.mark(inner.index);
    assert!(store.frames[1].captured);
    store.mark(9);
    store.release(inner.index, globals.index);
    assert_eq!(store.frames.len(), 2);
    let next = Environment::new(&mut store, Some(inner));
    assert_eq!(next.index, 2);
    store.release(next.index, inner.index);
    assert_eq!(store.frames.len(), 2);
}
