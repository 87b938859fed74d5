//! Statements of the syntax tree.

use vstd::prelude::*;
use crate::expr::{Expr, ExprView};
use crate::token::{clone_tokens, token_views, Token, TokenView};

verus! {

/// A statement. An absent initializer or return value is the literal `nil`.
#[allow(inconsistent_fields)]
#[derive(Debug, PartialEq, Eq)]
pub enum Stmt {
    Expression { expression: Expr },
    Print { expression: Expr },
    Return { keyword: Token, value: Expr },
    Var { name: Token, expression: Expr },
    Block { stmts: Vec<Stmt> },
    Function { name: Token, params: Vec<Token>, body: Vec<Stmt> },
    If { condition: Expr, then_branch: Box<Stmt>, else_branch: Option<Box<Stmt>> },
    While { condition: Expr, body: Box<Stmt> },
}

/// The mathematical value of a [`Stmt`].
#[allow(inconsistent_fields)]
pub enum StmtView {
    Expression { expression: ExprView },
    Print { expression: ExprView },
    Return { keyword: TokenView, value: ExprView },
    Var { name: TokenView, expression: ExprView },
    Block { stmts: Seq<StmtView> },
    Function { name: TokenView, params: Seq<TokenView>, body: Seq<StmtView> },
    If { condition: ExprView, then_branch: Box<StmtView>, else_branch: Option<Box<StmtView>> },
    While { condition: ExprView, body: Box<StmtView> },
}

/// The view of one statement.
pub open spec fn stmt_view(s: Stmt) -> StmtView
    decreases s,
{
    match s {
        Stmt::Expression { expression } => StmtView::Expression { expression: expression@ },
        Stmt::Print { expression } => StmtView::Print { expression: expression@ },
        Stmt::Return { keyword, value } => StmtView::Return { keyword: keyword@, value: value@ },
        Stmt::Var { name, expression } => StmtView::Var { name: name@, expression: expression@ },
        Stmt::Block { stmts } => StmtView::Block { stmts: stmt_views(stmts@) },
        Stmt::Function { name, params, body } => StmtView::Function {
            name: name@,
            params: token_views(params@),
            body: stmt_views(body@),
        },
        Stmt::If { condition, then_branch, else_branch } => StmtView::If {
            condition: condition@,
            then_branch: Box::new(stmt_view(*then_branch)),
            else_branch: match else_branch {
                Some(e) => Some(Box::new(stmt_view(*e))),
                None => None,
            },
        },
        Stmt::While { condition, body } => StmtView::While {
            condition: condition@,
            body: Box::new(stmt_view(*body)),
        },
    }
}

/// The views of a sequence of statements, position by position.
pub open spec fn stmt_views(ss: Seq<Stmt>) -> Seq<StmtView>
    decreases ss,
{
    Seq::new(
        ss.len(),
        |i: int|
            if 0 <= i < ss.len() {
                stmt_view(ss[i])
            } else {
                arbitrary()
            },
    )
}

impl View for Stmt {
    type V = StmtView;

    open spec fn view(&self) -> StmtView {
        stmt_view(*self)
    }
}

/// Copies a list of statements.
pub fn clone_stmts(ss: &Vec<Stmt>) -> (r: Vec<Stmt>)
    ensures
        stmt_views(r@) == stmt_views(ss@),
    decreases ss,
{
    let mut out: Vec<Stmt> = Vec::new();
    let mut i: usize = 0;
    while i < ss.len()
        invariant
            i <= ss.len(),
            out@.len() == i,
            forall|j: int| 0 <= j < i ==> stmt_view(out@[j]) == stmt_view(ss@[j]),
        decreases ss.len() - i,
    {
        out.push(ss[i].clone());
        i += 1;
    }
    assert(stmt_views(out@) =~= stmt_views(ss@));
    out
}

impl Clone for Stmt {
    fn clone(&self) -> (r: Self)
        ensures
            r@ == self@,
        decreases self,
    {
        match self {
            Stmt::Expression { expression } => Stmt::Expression { expression: expression.clone() },
            Stmt::Print { expression } => Stmt::Print { expression: expression.clone() },
            Stmt::Return { keyword, value } => Stmt::Return {
                keyword: keyword.clone(),
                value: value.clone(),
            },
            Stmt::Var { name, expression } => Stmt::Var {
                name: name.clone(),
                expression: expression.clone(),
            },
            Stmt::Block { stmts } => Stmt::Block { stmts: clone_stmts(stmts) },
            Stmt::Function { name, params, body } => Stmt::Function {
                name: name.clone(),
                params: clone_tokens(params),
                body: clone_stmts(body),
            },
            Stmt::If { condition, then_branch, else_branch } => Stmt::If {
                condition: condition.clone(),
                then_branch: Box::new((**then_branch).clone()),
                else_branch: match else_branch {
                    Some(e) => Some(Box::new((**e).clone())),
                    None => None,
                },
            },
            Stmt::While { condition, body } => Stmt::While {
                condition: condition.clone(),
                body: Box::new((**body).clone()),
            },
        }
    }
}

} // verus!
