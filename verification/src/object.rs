//! Run-time values.

use vstd::prelude::*;
use vstd::string::StringExecFns;
use crate::callable::{Callable, CallableView};
use crate::token::{Literal, LiteralView};

verus! {

/// A run-time value: a literal or something that can be called.
#[derive(Debug)]
pub enum Object {
    Literal(Literal),
    Callable(Callable),
}

/// The mathematical value of an [`Object`].
pub enum ObjectView {
    Literal(LiteralView),
    Callable(CallableView),
}

impl View for Object {
    type V = ObjectView;

    open spec fn view(&self) -> ObjectView {
        match self {
            Object::Literal(l) => ObjectView::Literal(l@),
            Object::Callable(c) => ObjectView::Callable(c@),
        }
    }
}

impl Clone for Object {
    fn clone(&self) -> (r: Self)
        ensures
            r@ == self@,
    {
        match self {
            Object::Literal(l) => Object::Literal(l.clone()),
            Object::Callable(c) => Object::Callable(c.clone()),
        }
    }
}

/// What `print` writes for a value: a finished text, or a number that is
/// still to be written out in decimal.
#[derive(Debug, PartialEq, Eq)]
pub enum Printable {
    Text(String),
    Number(u32),
}

/// The mathematical value of a [`Printable`].
pub enum PrintableView {
    Text(Seq<char>),
    Number(u32),
}

impl View for Printable {
    type V = PrintableView;

    open spec fn view(&self) -> PrintableView {
        match self {
            Printable::Text(s) => PrintableView::Text(s@),
            Printable::Number(bits) => PrintableView::Number(*bits),
        }
    }
}

/// The textual form of a value.
pub open spec fn display(o: ObjectView) -> PrintableView {
    match o {
        ObjectView::Literal(LiteralView::Nil) => PrintableView::Text("nil"@),
        ObjectView::Literal(LiteralView::Bool(b)) => PrintableView::Text(
            if b {
                "true"@
            } else {
                "false"@
            },
        ),
        ObjectView::Literal(LiteralView::Num(bits)) => PrintableView::Number(bits),
        ObjectView::Literal(LiteralView::Str(s)) => PrintableView::Text(s),
        ObjectView::Callable(CallableView::Clock) => PrintableView::Text("<native fn>"@),
        ObjectView::Callable(CallableView::Function(f)) => PrintableView::Text(
            "<fn "@ + f.name.lexeme + ">"@,
        ),
    }
}

/// Truthiness: `nil` and `false` are falsy, every other value is truthy.
pub open spec fn truthy(o: ObjectView) -> bool {
    match o {
        ObjectView::Literal(LiteralView::Nil) => false,
        ObjectView::Literal(LiteralView::Bool(b)) => b,
        _ => true,
    }
}

/// Equality of values: the same kind of literal with the same payload.
/// Values of different kinds, and callables, are never equal.
pub open spec fn values_equal(a: ObjectView, b: ObjectView) -> bool {
    match (a, b) {
        (ObjectView::Literal(x), ObjectView::Literal(y)) => x == y,
        _ => false,
    }
}

impl Object {
    /// The value `nil`.
    pub fn nil() -> (r: Object)
        ensures
            r@ == ObjectView::Literal(LiteralView::Nil),
    {
        Object::Literal(Literal::Nil)
    }

    /// The textual form of the value, as `print` writes it.
    pub fn printable(&self) -> (r: Printable)
        ensures
            r@ == display(self@),
    {
        match self {
            Object::Literal(Literal::Nil) => Printable::Text(String::from_str("nil")),
            Object::Literal(Literal::Bool(b)) => {
                if *b {
                    Printable::Text(String::from_str("true"))
                } else {
                    Printable::Text(String::from_str("false"))
                }
            },
            Object::Literal(Literal::Num(bits)) => Printable::Number(*bits),
            Object::Literal(Literal::Str(s)) => Printable::Text(s.clone()),
            Object::Callable(Callable::Clock) => Printable::Text(String::from_str("<native fn>")),
            Object::Callable(Callable::Function(f)) => {
                let mut s = String::from_str("<fn ");
                s.append(f.name.lexeme.as_str());
                s.append(">");
                Printable::Text(s)
            },
        }
    }

    /// Whether the value counts as true in a condition.
    pub fn is_truthy(&self) -> (r: bool)
        ensures
            r == truthy(self@),
    {
        match self {
            Object::Literal(Literal::Nil) => false,
            Object::Literal(Literal::Bool(b)) => *b,
            _ => true,
        }
    }

    /// Whether two values are equal.
    pub fn equals(&self, other: &Object) -> (r: bool)
        ensures
            r == values_equal(self@, other@),
    {
        match (self, other) {
            (Object::Literal(a), Object::Literal(b)) => a.equals(b),
            _ => false,
        }
    }
}

} // verus!
