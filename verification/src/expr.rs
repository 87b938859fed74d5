//! Expressions of the syntax tree.

use vstd::prelude::*;
use crate::token::{Literal, LiteralView, Token, TokenView};

verus! {

/// An expression. Every node owns its children.
///
/// A `Variable` and an `Assign` carry an `id`: the identity under which the
/// resolver records how many scopes lie between the reference and the
/// declaration it refers to.
#[allow(inconsistent_fields)]
#[derive(Debug, PartialEq, Eq, Hash)]
pub enum Expr {
    Assign { id: usize, name: Token, value: Box<Expr> },
    Binary { left: Box<Expr>, operator: Token, right: Box<Expr> },
    Call { callee: Box<Expr>, paren: Token, arguments: Vec<Expr> },
    Grouping { expression: Box<Expr> },
    Literal { value: Literal },
    Unary { operator: Token, right: Box<Expr> },
    Variable { id: usize, name: Token },
    Logic { left: Box<Expr>, operator: Token, right: Box<Expr> },
}

/// The mathematical value of an [`Expr`].
#[allow(inconsistent_fields)]
pub enum ExprView {
    Assign { id: usize, name: TokenView, value: Box<ExprView> },
    Binary { left: Box<ExprView>, operator: TokenView, right: Box<ExprView> },
    Call { callee: Box<ExprView>, paren: TokenView, arguments: Seq<ExprView> },
    Grouping { expression: Box<ExprView> },
    Literal { value: LiteralView },
    Unary { operator: TokenView, right: Box<ExprView> },
    Variable { id: usize, name: TokenView },
    Logic { left: Box<ExprView>, operator: TokenView, right: Box<ExprView> },
}

/// The view of one expression.
pub open spec fn expr_view(e: Expr) -> ExprView
    decreases e,
{
    match e {
        Expr::Assign { id, name, value } => ExprView::Assign {
            id,
            name: name@,
            value: Box::new(expr_view(*value)),
        },
        Expr::Binary { left, operator, right } => ExprView::Binary {
            left: Box::new(expr_view(*left)),
            operator: operator@,
            right: Box::new(expr_view(*right)),
        },
        Expr::Call { callee, paren, arguments } => ExprView::Call {
            callee: Box::new(expr_view(*callee)),
            paren: paren@,
            arguments: expr_views(arguments@),
        },
        Expr::Grouping { expression } => ExprView::Grouping {
            expression: Box::new(expr_view(*expression)),
        },
        Expr::Literal { value } => ExprView::Literal { value: value@ },
        Expr::Unary { operator, right } => ExprView::Unary {
            operator: operator@,
            right: Box::new(expr_view(*right)),
        },
        Expr::Variable { id, name } => ExprView::Variable { id, name: name@ },
        Expr::Logic { left, operator, right } => ExprView::Logic {
            left: Box::new(expr_view(*left)),
            operator: operator@,
            right: Box::new(expr_view(*right)),
        },
    }
}

/// The views of a sequence of expressions, position by position.
pub open spec fn expr_views(es: Seq<Expr>) -> Seq<ExprView>
    decreases es,
{
    Seq::new(
        es.len(),
        |i: int|
            if 0 <= i < es.len() {
                expr_view(es[i])
            } else {
                arbitrary()
            },
    )
}

impl View for Expr {
    type V = ExprView;

    open spec fn view(&self) -> ExprView {
        expr_view(*self)
    }
}

/// Copies a list of expressions.
pub fn clone_exprs(es: &Vec<Expr>) -> (r: Vec<Expr>)
    ensures
        expr_views(r@) == expr_views(es@),
    decreases es,
{
    let mut out: Vec<Expr> = Vec::new();
    let mut i: usize = 0;
    while i < es.len()
        invariant
            i <= es.len(),
            out@.len() == i,
            forall|j: int| 0 <= j < i ==> expr_view(out@[j]) == expr_view(es@[j]),
        decreases es.len() - i,
    {
        out.push(es[i].clone());
        i += 1;
    }
    assert(expr_views(out@) =~= expr_views(es@));
    out
}

impl Clone for Expr {
    fn clone(&self) -> (r: Self)
        ensures
            r@ == self@,
        decreases self,
    {
        match self {
            Expr::Assign { id, name, value } => Expr::Assign {
                id: *id,
                name: name.clone(),
                value: Box::new((**value).clone()),
            },
            Expr::Binary { left, operator, right } => Expr::Binary {
                left: Box::new((**left).clone()),
                operator: operator.clone(),
                right: Box::new((**right).clone()),
            },
            Expr::Call { callee, paren, arguments } => Expr::Call {
                callee: Box::new((**callee).clone()),
                paren: paren.clone(),
                arguments: clone_exprs(arguments),
            },
            Expr::Grouping { expression } => Expr::Grouping {
                expression: Box::new((**expression).clone()),
            },
            Expr::Literal { value } => Expr::Literal { value: value.clone() },
            Expr::Unary { operator, right } => Expr::Unary {
                operator: operator.clone(),
                right: Box::new((**right).clone()),
            },
            Expr::Variable { id, name } => Expr::Variable { id: *id, name: name.clone() },
            Expr::Logic { left, operator, right } => Expr::Logic {
                left: Box::new((**left).clone()),
                operator: operator.clone(),
                right: Box::new((**right).clone()),
            },
        }
    }
}

impl Expr {
    /// Whether this is the literal `nil`, which stands for an absent
    /// initializer or return value.
    pub fn is_nil_literal(&self) -> (r: bool)
        ensures
            r == (self@ == ExprView::Literal { value: LiteralView::Nil }),
    {
        match self {
            Expr::Literal { value } => value.is_nil(),
            _ => false,
        }
    }
}

} // verus!
