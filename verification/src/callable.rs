//! Values that can be called.

use vstd::prelude::*;
use crate::environment::Environment;
use crate::stmt::{clone_stmts, stmt_views, Stmt, StmtView};
use crate::token::{clone_tokens, token_views, Token, TokenView};

verus! {

/// A user-defined function together with the environment in which it was
/// declared.
#[derive(Debug)]
pub struct Function {
    pub name: Token,
    pub params: Vec<Token>,
    pub body: Vec<Stmt>,
    pub closure: Environment,
}

/// The mathematical value of a [`Function`].
pub struct FunctionView {
    pub name: TokenView,
    pub params: Seq<TokenView>,
    pub body: Seq<StmtView>,
    pub closure: Environment,
}

impl View for Function {
    type V = FunctionView;

    open spec fn view(&self) -> FunctionView {
        FunctionView {
            name: self.name@,
            params: token_views(self.params@),
            body: stmt_views(self.body@),
            closure: self.closure,
        }
    }
}

impl Clone for Function {
    fn clone(&self) -> (r: Self)
        ensures
            r@ == self@,
    {
        Function {
            name: self.name.clone(),
            params: clone_tokens(&self.params),
            body: clone_stmts(&self.body),
            closure: self.closure,
        }
    }
}

impl Function {
    /// A function with its name, its parameters, its body, and the
    /// environment in which it was declared.
    pub fn new(name: Token, params: Vec<Token>, body: Vec<Stmt>, closure: Environment) -> (r:
        Function)
        ensures
            r.name == name,
            r.params == params,
            r.body == body,
            r.closure == closure,
    {
        Function { name, params, body, closure }
    }
}

/// What can stand as the callee of a call.
#[derive(Debug)]
pub enum Callable {
    Function(Function),
    Clock,
}

/// The mathematical value of a [`Callable`].
pub enum CallableView {
    Function(FunctionView),
    Clock,
}

impl View for Callable {
    type V = CallableView;

    open spec fn view(&self) -> CallableView {
        match self {
            Callable::Function(f) => CallableView::Function(f@),
            Callable::Clock => CallableView::Clock,
        }
    }
}

impl Clone for Callable {
    fn clone(&self) -> (r: Self)
        ensures
            r@ == self@,
    {
        match self {
            Callable::Function(f) => Callable::Function(f.clone()),
            Callable::Clock => Callable::Clock,
        }
    }
}

/// The number of arguments that a callable takes.
pub open spec fn arity_of(c: CallableView) -> nat {
    match c {
        CallableView::Clock => 0,
        CallableView::Function(f) => f.params.len(),
    }
}

impl Callable {
    /// The number of arguments that the callable takes.
    pub fn arity(&self) -> (r: usize)
        ensures
            r == arity_of(self@),
    {
        match self {
            Callable::Clock => 0,
            Callable::Function(f) => f.params.len(),
        }
    }
}

} // verus!
