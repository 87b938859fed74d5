//! The resolver: a pass over the syntax tree that tells, for every
//! reference to a local variable, how many scopes lie between the
//! reference and the declaration it refers to.

use vstd::prelude::*;
use vstd::string::StringExecFns;
use crate::error::{Error, ErrorView};
use crate::expr::{expr_views, Expr, ExprView};
use crate::interpreter::{Interpreter, State};
use crate::stmt::{stmt_views, Stmt, StmtView};
use crate::token::{token_views, Token, TokenView};

verus! {

/// Whether the code at hand is inside a function.
#[allow(clippy::upper_case_acronyms)]
#[derive(Debug, Clone, Copy, PartialEq, Eq, Structural)]
pub enum FunctionType {
    NONE,
    FUNCTION,
}

/// A name declared in a scope, and whether its initializer is done.
#[derive(Debug)]
pub struct Declared {
    pub name: String,
    pub ready: bool,
}

/// The resolver's state: the local scopes around the code at hand, the
/// innermost last. The global scope is not among them.
#[derive(Debug)]
pub struct Resolver {
    pub scopes: Vec<Vec<Declared>>,
    pub current_function: FunctionType,
}

/// The map that the entries of a scope stand for: a later entry of a name
/// hides an earlier one.
pub open spec fn scope_map(entries: Seq<Declared>) -> Map<Seq<char>, bool>
    decreases entries.len(),
{
    if entries.len() == 0 {
        Map::empty()
    } else {
        scope_map(entries.drop_last()).insert(entries.last().name@, entries.last().ready)
    }
}

/// The maps of a stack of scopes.
pub open spec fn scope_maps(scopes: Seq<Vec<Declared>>) -> Seq<Map<Seq<char>, bool>> {
    Seq::new(scopes.len(), |i: int| scope_map(scopes[i]@))
}

/// The state of a resolution: the scopes, whether the code at hand is
/// inside a function, the table of distances recorded so far, and the
/// error that has ended the resolution, if one has.
pub struct Resolved {
    pub scopes: Seq<Map<Seq<char>, bool>>,
    pub in_function: bool,
    pub table: Map<usize, usize>,
    pub error: Option<ErrorView>,
}

/// The state with an error.
pub open spec fn refused(s: Resolved, token: TokenView, message: Seq<char>) -> Resolved {
    Resolved { error: Some(ErrorView::ResolveError(token, message)), ..s }
}

/// The state with the innermost scope replaced.
pub open spec fn with_top(s: Resolved, top: Map<Seq<char>, bool>) -> Resolved {
    Resolved { scopes: s.scopes.update(s.scopes.len() - 1, top), ..s }
}

/// Declares a name in the innermost scope: it exists, but is not ready.
/// Declaring a name twice in one local scope is an error. Among the
/// globals nothing is recorded.
pub open spec fn declared(s: Resolved, name: TokenView) -> Resolved {
    if s.scopes.len() == 0 {
        s
    } else if s.scopes.last().contains_key(name.lexeme) {
        refused(s, name, "Already a variable with this name in this scope."@)
    } else {
        with_top(s, s.scopes.last().insert(name.lexeme, false))
    }
}

/// Marks a name of the innermost scope as ready for use.
pub open spec fn defined(s: Resolved, name: TokenView) -> Resolved {
    if s.scopes.len() == 0 {
        s
    } else {
        with_top(s, s.scopes.last().insert(name.lexeme, true))
    }
}

/// The number of scopes between the innermost scope and the nearest scope
/// that declares the name; `None` if no local scope declares it.
pub open spec fn depth_of(scopes: Seq<Map<Seq<char>, bool>>, name: Seq<char>) -> Option<nat>
    decreases scopes.len(),
{
    if scopes.len() == 0 {
        None
    } else if scopes.last().contains_key(name) {
        Some(0)
    } else {
        match depth_of(scopes.drop_last(), name) {
            Some(d) => Some(d + 1),
            None => None,
        }
    }
}

/// Records the distance of a reference to a local variable. A name that no
/// local scope declares is taken for a global: nothing is recorded.
pub open spec fn resolved_local(s: Resolved, id: usize, name: Seq<char>) -> Resolved {
    match depth_of(s.scopes, name) {
        Some(d) => Resolved { table: s.table.insert(id, d as usize), ..s },
        None => s,
    }
}

/// Opens a scope.
pub open spec fn begun(s: Resolved) -> Resolved {
    Resolved { scopes: s.scopes.push(Map::empty()), ..s }
}

/// Closes the innermost scope.
pub open spec fn ended(s: Resolved) -> Resolved {
    if s.scopes.len() == 0 {
        s
    } else {
        Resolved { scopes: s.scopes.drop_last(), ..s }
    }
}

/// Whether a variable is read inside its own initializer.
pub open spec fn reads_own_initializer(s: Resolved, name: Seq<char>) -> bool {
    s.scopes.len() > 0 && s.scopes.last().contains_key(name) && !s.scopes.last()[name]
}

/// Resolves an expression.
pub open spec fn resolve_expr(e: ExprView, s: Resolved) -> Resolved
    decreases e,
{
    match e {
        ExprView::Literal { value } => s,
        ExprView::Grouping { expression } => resolve_expr(*expression, s),
        ExprView::Unary { operator, right } => resolve_expr(*right, s),
        ExprView::Binary { left, operator, right } => {
            let a = resolve_expr(*left, s);
            if a.error is Some {
                a
            } else {
                resolve_expr(*right, a)
            }
        },
        ExprView::Logic { left, operator, right } => {
            let a = resolve_expr(*left, s);
            if a.error is Some {
                a
            } else {
                resolve_expr(*right, a)
            }
        },
        ExprView::Call { callee, paren, arguments } => {
            let a = resolve_expr(*callee, s);
            if a.error is Some {
                a
            } else {
                resolve_exprs(arguments, 0, a)
            }
        },
        ExprView::Variable { id, name } => if reads_own_initializer(s, name.lexeme) {
            refused(s, name, "Cannot read local variable in its own initializer."@)
        } else {
            resolved_local(s, id, name.lexeme)
        },
        ExprView::Assign { id, name, value } => {
            let a = resolve_expr(*value, s);
            if a.error is Some {
                a
            } else {
                resolved_local(a, id, name.lexeme)
            }
        },
    }
}

/// Resolves the expressions of a list from the position `i` on, up to the
/// first error.
pub open spec fn resolve_exprs(es: Seq<ExprView>, i: nat, s: Resolved) -> Resolved
    decreases es, es.len() - i,
{
    if i >= es.len() {
        s
    } else {
        let a = resolve_expr(es[i as int], s);
        if a.error is Some {
            a
        } else {
            resolve_exprs(es, i + 1, a)
        }
    }
}

/// Declares and defines the parameters of a function from the position
/// `i` on, up to the first error.
pub open spec fn resolve_params(params: Seq<TokenView>, i: nat, s: Resolved) -> Resolved
    decreases params.len() - i,
{
    if i >= params.len() {
        s
    } else {
        let a = declared(s, params[i as int]);
        if a.error is Some {
            a
        } else {
            resolve_params(params, i + 1, defined(a, params[i as int]))
        }
    }
}

/// Whether an expression is the literal `nil`, which stands for an absent
/// initializer or return value.
pub open spec fn is_absent(e: ExprView) -> bool {
    e == (ExprView::Literal { value: crate::token::LiteralView::Nil })
}

/// Resolves a statement.
pub open spec fn resolve_stmt(st: StmtView, s: Resolved) -> Resolved
    decreases st,
{
    match st {
        StmtView::Expression { expression } => resolve_expr(expression, s),
        StmtView::Print { expression } => resolve_expr(expression, s),
        StmtView::Var { name, expression } => {
            let a = declared(s, name);
            if a.error is Some {
                a
            } else {
                let b = if is_absent(expression) {
                    a
                } else {
                    resolve_expr(expression, a)
                };
                if b.error is Some {
                    b
                } else {
                    defined(b, name)
                }
            }
        },
        StmtView::Block { stmts } => {
            let a = resolve_stmts(stmts, 0, begun(s));
            if a.error is Some {
                a
            } else {
                ended(a)
            }
        },
        StmtView::If { condition, then_branch, else_branch } => {
            let a = resolve_expr(condition, s);
            if a.error is Some {
                a
            } else {
                let b = resolve_stmt(*then_branch, a);
                if b.error is Some {
                    b
                } else {
                    match else_branch {
                        Some(e) => resolve_stmt(*e, b),
                        None => b,
                    }
                }
            }
        },
        StmtView::While { condition, body } => {
            let a = resolve_expr(condition, s);
            if a.error is Some {
                a
            } else {
                resolve_stmt(*body, a)
            }
        },
        StmtView::Function { name, params, body } => {
            let a = declared(s, name);
            if a.error is Some {
                a
            } else {
                let inside = Resolved { in_function: true, ..begun(defined(a, name)) };
                let b = resolve_params(params, 0, inside);
                if b.error is Some {
                    b
                } else {
                    let c = resolve_stmts(body, 0, b);
                    if c.error is Some {
                        c
                    } else {
                        Resolved { in_function: s.in_function, ..ended(c) }
                    }
                }
            }
        },
        StmtView::Return { keyword, value } => if !s.in_function {
            refused(s, keyword, "Can't return from top-level code."@)
        } else if is_absent(value) {
            s
        } else {
            resolve_expr(value, s)
        },
    }
}

/// Resolves the statements of a list from the position `i` on, up to the
/// first error.
pub open spec fn resolve_stmts(sts: Seq<StmtView>, i: nat, s: Resolved) -> Resolved
    decreases sts, sts.len() - i,
{
    if i >= sts.len() {
        s
    } else {
        let a = resolve_stmt(sts[i as int], s);
        if a.error is Some {
            a
        } else {
            resolve_stmts(sts, i + 1, a)
        }
    }
}

/// The state of a resolution that a resolver and an interpreter hold
/// between them.
pub open spec fn snapshot(r: Resolver, i: Interpreter, error: Option<ErrorView>) -> Resolved {
    Resolved {
        scopes: scope_maps(r.scopes@),
        in_function: r.current_function == FunctionType::FUNCTION,
        table: i@.locals,
        error,
    }
}

/// The error of a result, if it is one.
pub open spec fn error_of(r: Result<(), Error>) -> Option<ErrorView> {
    match r {
        Ok(_) => None,
        Err(e) => Some(e@),
    }
}

/// Whether two interpreters differ in their resolution tables at most.
pub open spec fn same_but_table(before: Interpreter, after: Interpreter) -> bool {
    after@ == (State { locals: after@.locals, ..before@ })
}

proof fn lemma_absent(entries: Seq<Declared>, name: Seq<char>)
    requires
        forall|j: int| 0 <= j < entries.len() ==> entries[j].name@ != name,
    ensures
        !scope_map(entries).contains_key(name),
    decreases entries.len(),
{
    if entries.len() > 0 {
        lemma_absent(entries.drop_last(), name);
    }
}

proof fn lemma_last(entries: Seq<Declared>, i: int, name: Seq<char>)
    requires
        0 <= i < entries.len(),
        entries[i].name@ == name,
        forall|j: int| i < j < entries.len() ==> entries[j].name@ != name,
    ensures
        scope_map(entries).contains_key(name),
        scope_map(entries)[name] == entries[i].ready,
    decreases entries.len(),
{
    if i < entries.len() - 1 {
        lemma_last(entries.drop_last(), i, name);
    }
}

proof fn lemma_update(entries: Seq<Declared>, i: int, e: Declared)
    requires
        0 <= i < entries.len(),
        entries[i].name@ == e.name@,
        forall|j: int| i < j < entries.len() ==> entries[j].name@ != e.name@,
    ensures
        scope_map(entries.update(i, e)) == scope_map(entries).insert(e.name@, e.ready),
    decreases entries.len(),
{
    let after = entries.update(i, e);
    if i == entries.len() - 1 {
        assert(after.drop_last() =~= entries.drop_last());
        assert(scope_map(after) =~= scope_map(entries).insert(e.name@, e.ready));
    } else {
        lemma_update(entries.drop_last(), i, e);
        assert(after.drop_last() =~= entries.drop_last().update(i, e));
        assert(scope_map(after) =~= scope_map(entries).insert(e.name@, e.ready));
    }
}

proof fn lemma_depth_is_innermost(scopes: Seq<Map<Seq<char>, bool>>, name: Seq<char>)
    ensures
        match depth_of(scopes, name) {
            Some(d) => d < scopes.len() && scopes[scopes.len() - 1 - d].contains_key(name)
                && forall|k: int|
                0 <= k < d ==> !(#[trigger] scopes[scopes.len() - 1 - k]).contains_key(name),
            None => forall|i: int| 0 <= i < scopes.len() ==> !(#[trigger] scopes[i]).contains_key(name),
        },
    decreases scopes.len(),
{
    if scopes.len() > 0 && !scopes.last().contains_key(name) {
        let rest = scopes.drop_last();
        lemma_depth_is_innermost(rest, name);
        match depth_of(rest, name) {
            Some(d) => {
                assert(rest[rest.len() - 1 - d] == scopes[scopes.len() - 1 - (d + 1)]);
                assert forall|k: int| 0 <= k < d + 1 implies !(#[trigger] scopes[scopes.len() - 1
                    - k]).contains_key(name) by {
                    if k > 0 {
                        assert(scopes[scopes.len() - 1 - k] == rest[rest.len() - 1 - (k - 1)]);
                    }
                }
            },
            None => {
                assert forall|i: int| 0 <= i < scopes.len() implies !(#[trigger] scopes[i]).contains_key(
                    name,
                ) by {
                    if i < rest.len() {
                        assert(scopes[i] == rest[i]);
                    }
                }
            },
        }
    }
}

/// The last entry of a name in a scope.
fn find(entries: &Vec<Declared>, name: &String) -> (r: Option<usize>)
    ensures
        match r {
            Some(i) => i < entries@.len() && scope_map(entries@).contains_key(name@) && scope_map(
                entries@,
            )[name@] == entries@[i as int].ready && entries@[i as int].name@ == name@
                && forall|j: int| i < j < entries@.len() ==> entries@[j].name@ != name@,
            None => !scope_map(entries@).contains_key(name@),
        },
{
    let mut i: usize = entries.len();
    while i > 0
        invariant
            i <= entries@.len(),
            forall|j: int| i <= j < entries@.len() ==> entries@[j].name@ != name@,
        decreases i,
    {
        i -= 1;
        if entries[i].name == *name {
            proof {
                lemma_last(entries@, i as int, name@);
            }
            return Some(i);
        }
    }
    proof {
        lemma_absent(entries@, name@);
    }
    None
}

fn refusal(token: &Token, message: &str) -> (r: Error)
    ensures
        r@ == ErrorView::ResolveError(token@, message@),
{
    Error::ResolveError(token.clone(), String::from_str(message))
}

impl Resolver {
    /// A resolver at the top level of a program: no local scope, outside
    /// any function.
    pub fn new() -> (r: Resolver)
        ensures
            r.scopes@.len() == 0,
            r.current_function == FunctionType::NONE,
    {
        Resolver { scopes: Vec::new(), current_function: FunctionType::NONE }
    }

    /// Sets an entry of the innermost scope.
    fn set(&mut self, name: &Token, ready: bool)
        requires
            old(self).scopes@.len() > 0,
        ensures
            final(self).current_function == old(self).current_function,
            scope_maps(final(self).scopes@) == scope_maps(old(self).scopes@).update(
                old(self).scopes@.len() - 1,
                scope_maps(old(self).scopes@).last().insert(name@.lexeme, ready),
            ),
    {
        let top = self.scopes.len() - 1;
        let ghost before = self.scopes@[top as int]@;
        let entry = Declared { name: name.lexeme.clone(), ready };
        match find(&self.scopes[top], &name.lexeme) {
            Some(i) => {
                proof {
                    lemma_update(before, i as int, entry);
                }
                self.scopes[top].set(i, entry);
            },
            None => {
                assert(before.push(entry).drop_last() =~= before);
                self.scopes[top].push(entry);
            },
        }
        assert(scope_maps(self.scopes@) =~= scope_maps(old(self).scopes@).update(
            old(self).scopes@.len() - 1,
            scope_maps(old(self).scopes@).last().insert(name@.lexeme, ready),
        ));
    }

    fn declare(&mut self, interpreter: &Interpreter, name: &Token) -> (r: Result<(), Error>)
        ensures
            snapshot(*final(self), *interpreter, error_of(r)) == declared(
                snapshot(*old(self), *interpreter, None),
                name@,
            ),
    {
        if self.scopes.len() == 0 {
            return Ok(());
        }
        let top = self.scopes.len() - 1;
        if find(&self.scopes[top], &name.lexeme).is_some() {
            return Err(refusal(name, "Already a variable with this name in this scope."));
        }
        self.set(name, false);
        Ok(())
    }

    fn define(&mut self, interpreter: &Interpreter, name: &Token)
        ensures
            snapshot(*final(self), *interpreter, None) == defined(
                snapshot(*old(self), *interpreter, None),
                name@,
            ),
    {
        if self.scopes.len() == 0 {
            return ;
        }
        self.set(name, true);
    }

    fn begin_scope(&mut self, interpreter: &Interpreter)
        ensures
            snapshot(*final(self), *interpreter, None) == begun(
                snapshot(*old(self), *interpreter, None),
            ),
    {
        self.scopes.push(Vec::new());
        assert(scope_maps(self.scopes@) =~= scope_maps(old(self).scopes@).push(Map::empty()));
    }

    fn end_scope(&mut self, interpreter: &Interpreter)
        ensures
            snapshot(*final(self), *interpreter, None) == ended(
                snapshot(*old(self), *interpreter, None),
            ),
    {
        self.scopes.pop();
        assert(old(self).scopes@.len() > 0 ==> scope_maps(self.scopes@) =~= scope_maps(
            old(self).scopes@,
        ).drop_last());
    }

    /// Records the distance from the innermost scope to the nearest scope
    /// that declares the name, if one does.
    fn resolve_local(&self, interpreter: &mut Interpreter, id: usize, name: &Token)
        ensures
            same_but_table(*old(interpreter), *final(interpreter)),
            snapshot(*self, *final(interpreter), None) == resolved_local(
                snapshot(*self, *old(interpreter), None),
                id,
                name@.lexeme,
            ),
    {
        let n = self.scopes.len();
        let ghost maps = scope_maps(self.scopes@);
        assert(maps.subrange(0, n as int) =~= maps);
        let mut i: usize = n;
        while i > 0
            invariant
                i <= n,
                n == self.scopes@.len(),
                maps == scope_maps(self.scopes@),
                *interpreter == *old(interpreter),
                match depth_of(maps.subrange(0, i as int), name@.lexeme) {
                    Some(d) => depth_of(maps, name@.lexeme) == Some((d + (n - i)) as nat),
                    None => depth_of(maps, name@.lexeme) is None,
                },
            decreases i,
        {
            let ghost upper = maps.subrange(0, i as int);
            i -= 1;
            assert(upper.drop_last() =~= maps.subrange(0, i as int));
            assert(upper.last() == maps[i as int]);
            if find(&self.scopes[i], &name.lexeme).is_some() {
                interpreter.resolve(id, n - 1 - i);
                return ;
            }
        }
    }

    fn resolve_expr(&mut self, interpreter: &mut Interpreter, expr: &Expr) -> (r: Result<(), Error>)
        ensures
            same_but_table(*old(interpreter), *final(interpreter)),
            snapshot(*final(self), *final(interpreter), error_of(r)) == resolve_expr(
                expr@,
                snapshot(*old(self), *old(interpreter), None),
            ),
        decreases expr,
    {
        match expr {
            Expr::Literal { value } => Ok(()),
            Expr::Grouping { expression } => self.resolve_expr(interpreter, expression),
            Expr::Unary { operator, right } => self.resolve_expr(interpreter, right),
            Expr::Binary { left, operator, right } => {
                match self.resolve_expr(interpreter, left) {
                    Ok(_) => self.resolve_expr(interpreter, right),
                    Err(e) => Err(e),
                }
            },
            Expr::Logic { left, operator, right } => {
                match self.resolve_expr(interpreter, left) {
                    Ok(_) => self.resolve_expr(interpreter, right),
                    Err(e) => Err(e),
                }
            },
            Expr::Call { callee, paren, arguments } => {
                match self.resolve_expr(interpreter, callee) {
                    Ok(_) => self.resolve_exprs(interpreter, arguments),
                    Err(e) => Err(e),
                }
            },
            Expr::Variable { id, name } => {
                if self.scopes.len() > 0 {
                    let top = self.scopes.len() - 1;
                    match find(&self.scopes[top], &name.lexeme) {
                        Some(i) => {
                            if !self.scopes[top][i].ready {
                                return Err(
                                    refusal(
                                        name,
                                        "Cannot read local variable in its own initializer.",
                                    ),
                                );
                            }
                        },
                        None => {},
                    }
                }
                self.resolve_local(interpreter, *id, name);
                Ok(())
            },
            Expr::Assign { id, name, value } => {
                match self.resolve_expr(interpreter, value) {
                    Ok(_) => {
                        self.resolve_local(interpreter, *id, name);
                        Ok(())
                    },
                    Err(e) => Err(e),
                }
            },
        }
    }

    fn resolve_exprs(&mut self, interpreter: &mut Interpreter, exprs: &Vec<Expr>) -> (r: Result<
        (),
        Error,
    >)
        ensures
            same_but_table(*old(interpreter), *final(interpreter)),
            snapshot(*final(self), *final(interpreter), error_of(r)) == resolve_exprs(
                expr_views(exprs@),
                0,
                snapshot(*old(self), *old(interpreter), None),
            ),
        decreases exprs,
    {
        let ghost target = resolve_exprs(
            expr_views(exprs@),
            0,
            snapshot(*old(self), *old(interpreter), None),
        );
        let mut i: usize = 0;
        while i < exprs.len()
            invariant
                i <= exprs@.len(),
                same_but_table(*old(interpreter), *interpreter),
                target == resolve_exprs(
                    expr_views(exprs@),
                    0,
                    snapshot(*old(self), *old(interpreter), None),
                ),
                target == resolve_exprs(
                    expr_views(exprs@),
                    i as nat,
                    snapshot(*self, *interpreter, None),
                ),
            decreases exprs@.len() - i,
        {
            match self.resolve_expr(interpreter, &exprs[i]) {
                Ok(_) => {},
                Err(e) => {
                    return Err(e);
                },
            }
            i += 1;
        }
        Ok(())
    }

    fn resolve_params(&mut self, interpreter: &Interpreter, params: &Vec<Token>) -> (r: Result<
        (),
        Error,
    >)
        ensures
            snapshot(*final(self), *interpreter, error_of(r)) == resolve_params(
                token_views(params@),
                0,
                snapshot(*old(self), *interpreter, None),
            ),
    {
        let ghost target = resolve_params(
            token_views(params@),
            0,
            snapshot(*old(self), *interpreter, None),
        );
        let mut i: usize = 0;
        while i < params.len()
            invariant
                i <= params@.len(),
                target == resolve_params(
                    token_views(params@),
                    0,
                    snapshot(*old(self), *interpreter, None),
                ),
                target == resolve_params(
                    token_views(params@),
                    i as nat,
                    snapshot(*self, *interpreter, None),
                ),
            decreases params@.len() - i,
        {
            match self.declare(interpreter, &params[i]) {
                Ok(_) => {},
                Err(e) => {
                    return Err(e);
                },
            }
            self.define(interpreter, &params[i]);
            i += 1;
        }
        Ok(())
    }

    /// Resolves the body of a function in a scope of its own, which holds
    /// the parameters.
    fn resolve_function(
        &mut self,
        interpreter: &mut Interpreter,
        params: &Vec<Token>,
        body: &Vec<Stmt>,
        fun_type: FunctionType,
    ) -> (r: Result<(), Error>)
        requires
            fun_type == FunctionType::FUNCTION,
        ensures
            same_but_table(*old(interpreter), *final(interpreter)),
            snapshot(*final(self), *final(interpreter), error_of(r)) == ({
                let s = snapshot(*old(self), *old(interpreter), None);
                let b = resolve_params(
                    token_views(params@),
                    0,
                    Resolved { in_function: true, ..begun(s) },
                );
                if b.error is Some {
                    b
                } else {
                    let c = resolve_stmts(stmt_views(body@), 0, b);
                    if c.error is Some {
                        c
                    } else {
                        Resolved { in_function: s.in_function, ..ended(c) }
                    }
                }
            }),
        decreases body, 1nat,
    {
        let enclosing_function = self.current_function;
        self.begin_scope(interpreter);
        self.current_function = fun_type;
        match self.resolve_params(interpreter, params) {
            Ok(_) => {},
            Err(e) => {
                return Err(e);
            },
        }
        match self.resolve_statements(interpreter, body) {
            Ok(_) => {},
            Err(e) => {
                return Err(e);
            },
        }
        self.end_scope(interpreter);
        self.current_function = enclosing_function;
        Ok(())
    }

    fn resolve_statement(&mut self, interpreter: &mut Interpreter, stmt: &Stmt) -> (r: Result<
        (),
        Error,
    >)
        ensures
            same_but_table(*old(interpreter), *final(interpreter)),
            snapshot(*final(self), *final(interpreter), error_of(r)) == resolve_stmt(
                stmt@,
                snapshot(*old(self), *old(interpreter), None),
            ),
        decreases stmt,
    {
        match stmt {
            Stmt::Expression { expression } => self.resolve_expr(interpreter, expression),
            Stmt::Print { expression } => self.resolve_expr(interpreter, expression),
            Stmt::Var { name, expression } => {
                match self.declare(interpreter, name) {
                    Ok(_) => {},
                    Err(e) => {
                        return Err(e);
                    },
                }
                if !expression.is_nil_literal() {
                    match self.resolve_expr(interpreter, expression) {
                        Ok(_) => {},
                        Err(e) => {
                            return Err(e);
                        },
                    }
                }
                self.define(interpreter, name);
                Ok(())
            },
            Stmt::Block { stmts } => {
                self.begin_scope(interpreter);
                match self.resolve_statements(interpreter, stmts) {
                    Ok(_) => {},
                    Err(e) => {
                        return Err(e);
                    },
                }
                self.end_scope(interpreter);
                Ok(())
            },
            Stmt::If { condition, then_branch, else_branch } => {
                match self.resolve_expr(interpreter, condition) {
                    Ok(_) => {},
                    Err(e) => {
                        return Err(e);
                    },
                }
                match self.resolve_statement(interpreter, then_branch) {
                    Ok(_) => {},
                    Err(e) => {
                        return Err(e);
                    },
                }
                match else_branch {
                    Some(eb) => self.resolve_statement(interpreter, eb),
                    None => Ok(()),
                }
            },
            Stmt::While { condition, body } => {
                match self.resolve_expr(interpreter, condition) {
                    Ok(_) => self.resolve_statement(interpreter, body),
                    Err(e) => Err(e),
                }
            },
            Stmt::Function { name, params, body } => {
                match self.declare(interpreter, name) {
                    Ok(_) => {},
                    Err(e) => {
                        return Err(e);
                    },
                }
                self.define(interpreter, name);
                self.resolve_function(interpreter, params, body, FunctionType::FUNCTION)
            },
            Stmt::Return { keyword, value } => {
                if self.current_function == FunctionType::NONE {
                    return Err(refusal(keyword, "Can't return from top-level code."));
                }
                if value.is_nil_literal() {
                    Ok(())
                } else {
                    self.resolve_expr(interpreter, value)
                }
            },
        }
    }

    /// Resolves a list of statements: for every reference to a local
    /// variable in them, the interpreter's table gets the distance to the
    /// scope that declares it. Stops at the first error.
    pub fn resolve_statements(&mut self, interpreter: &mut Interpreter, statements: &Vec<Stmt>) -> (r:
        Result<(), Error>)
        ensures
            same_but_table(*old(interpreter), *final(interpreter)),
            snapshot(*final(self), *final(interpreter), error_of(r)) == resolve_stmts(
                stmt_views(statements@),
                0,
                snapshot(*old(self), *old(interpreter), None),
            ),
        decreases statements, 0nat,
    {
        let ghost target = resolve_stmts(
            stmt_views(statements@),
            0,
            snapshot(*old(self), *old(interpreter), None),
        );
        let mut i: usize = 0;
        while i < statements.len()
            invariant
                i <= statements@.len(),
                same_but_table(*old(interpreter), *interpreter),
                target == resolve_stmts(
                    stmt_views(statements@),
                    0,
                    snapshot(*old(self), *old(interpreter), None),
                ),
                target == resolve_stmts(
                    stmt_views(statements@),
                    i as nat,
                    snapshot(*self, *interpreter, None),
                ),
            decreases statements@.len() - i,
        {
            match self.resolve_statement(interpreter, &statements[i]) {
                Ok(_) => {},
                Err(e) => {
                    return Err(e);
                },
            }
            i += 1;
        }
        Ok(())
    }
}

/// The state of a resolution that is replayed over another table: what
/// the resolution has recorded overrides what the other table holds.
pub open spec fn replayed(s: Resolved, table: Map<usize, usize>) -> Resolved {
    Resolved { table: table.union_prefer_right(s.table), ..s }
}

proof fn lemma_replay_local(s: Resolved, id: usize, name: Seq<char>, t: Map<usize, usize>)
    ensures
        resolved_local(replayed(s, t), id, name) == replayed(resolved_local(s, id, name), t),
{
    match depth_of(s.scopes, name) {
        Some(d) => {
            assert(t.union_prefer_right(s.table).insert(id, d as usize) =~= t.union_prefer_right(
                s.table.insert(id, d as usize),
            ));
        },
        None => {},
    }
}

proof fn lemma_replay_expr(e: ExprView, s: Resolved, t: Map<usize, usize>)
    ensures
        resolve_expr(e, replayed(s, t)) == replayed(resolve_expr(e, s), t),
    decreases e,
{
    match e {
        ExprView::Literal { value } => {},
        ExprView::Grouping { expression } => {
            lemma_replay_expr(*expression, s, t);
        },
        ExprView::Unary { operator, right } => {
            lemma_replay_expr(*right, s, t);
        },
        ExprView::Binary { left, operator, right } => {
            lemma_replay_expr(*left, s, t);
            lemma_replay_expr(*right, resolve_expr(*left, s), t);
        },
        ExprView::Logic { left, operator, right } => {
            lemma_replay_expr(*left, s, t);
            lemma_replay_expr(*right, resolve_expr(*left, s), t);
        },
        ExprView::Call { callee, paren, arguments } => {
            lemma_replay_expr(*callee, s, t);
            lemma_replay_exprs(arguments, 0, resolve_expr(*callee, s), t);
        },
        ExprView::Variable { id, name } => {
            lemma_replay_local(s, id, name.lexeme, t);
        },
        ExprView::Assign { id, name, value } => {
            lemma_replay_expr(*value, s, t);
            lemma_replay_local(resolve_expr(*value, s), id, name.lexeme, t);
        },
    }
}

proof fn lemma_replay_exprs(es: Seq<ExprView>, i: nat, s: Resolved, t: Map<usize, usize>)
    ensures
        resolve_exprs(es, i, replayed(s, t)) == replayed(resolve_exprs(es, i, s), t),
    decreases es, es.len() - i,
{
    if i < es.len() {
        lemma_replay_expr(es[i as int], s, t);
        lemma_replay_exprs(es, i + 1, resolve_expr(es[i as int], s), t);
    }
}

proof fn lemma_replay_params(params: Seq<TokenView>, i: nat, s: Resolved, t: Map<usize, usize>)
    ensures
        resolve_params(params, i, replayed(s, t)) == replayed(resolve_params(params, i, s), t),
    decreases params.len() - i,
{
    if i < params.len() {
        let a = declared(s, params[i as int]);
        assert(declared(replayed(s, t), params[i as int]) == replayed(a, t));
        assert(defined(replayed(a, t), params[i as int]) == replayed(
            defined(a, params[i as int]),
            t,
        ));
        lemma_replay_params(params, i + 1, defined(a, params[i as int]), t);
    }
}

proof fn lemma_replay_stmt(st: StmtView, s: Resolved, t: Map<usize, usize>)
    ensures
        resolve_stmt(st, replayed(s, t)) == replayed(resolve_stmt(st, s), t),
    decreases st,
{
    match st {
        StmtView::Expression { expression } => {
            lemma_replay_expr(expression, s, t);
        },
        StmtView::Print { expression } => {
            lemma_replay_expr(expression, s, t);
        },
        StmtView::Var { name, expression } => {
            let a = declared(s, name);
            assert(declared(replayed(s, t), name) == replayed(a, t));
            lemma_replay_expr(expression, a, t);
            let b = if is_absent(expression) {
                a
            } else {
                resolve_expr(expression, a)
            };
            assert(defined(replayed(b, t), name) == replayed(defined(b, name), t));
        },
        StmtView::Block { stmts } => {
            assert(begun(replayed(s, t)) == replayed(begun(s), t));
            lemma_replay_stmts(stmts, 0, begun(s), t);
            let a = resolve_stmts(stmts, 0, begun(s));
            assert(ended(replayed(a, t)) == replayed(ended(a), t));
        },
        StmtView::If { condition, then_branch, else_branch } => {
            lemma_replay_expr(condition, s, t);
            let a = resolve_expr(condition, s);
            lemma_replay_stmt(*then_branch, a, t);
            match else_branch {
                Some(e) => {
                    lemma_replay_stmt(*e, resolve_stmt(*then_branch, a), t);
                },
                None => {},
            }
        },
        StmtView::While { condition, body } => {
            lemma_replay_expr(condition, s, t);
            lemma_replay_stmt(*body, resolve_expr(condition, s), t);
        },
        StmtView::Function { name, params, body } => {
            let a = declared(s, name);
            assert(declared(replayed(s, t), name) == replayed(a, t));
            let inside = Resolved { in_function: true, ..begun(defined(a, name)) };
            assert((Resolved { in_function: true, ..begun(defined(replayed(a, t), name)) })
                == replayed(inside, t));
            lemma_replay_params(params, 0, inside, t);
            let b = resolve_params(params, 0, inside);
            lemma_replay_stmts(body, 0, b, t);
            let c = resolve_stmts(body, 0, b);
            assert((Resolved { in_function: s.in_function, ..ended(replayed(c, t)) }) == replayed(
                Resolved { in_function: s.in_function, ..ended(c) },
                t,
            ));
        },
        StmtView::Return { keyword, value } => {
            lemma_replay_expr(value, s, t);
        },
    }
}

proof fn lemma_replay_stmts(sts: Seq<StmtView>, i: nat, s: Resolved, t: Map<usize, usize>)
    ensures
        resolve_stmts(sts, i, replayed(s, t)) == replayed(resolve_stmts(sts, i, s), t),
    decreases sts, sts.len() - i,
{
    if i < sts.len() {
        lemma_replay_stmt(sts[i as int], s, t);
        lemma_replay_stmts(sts, i + 1, resolve_stmt(sts[i as int], s), t);
    }
}

/// Resolver purity. What a resolution records depends on the statements
/// and on the scopes it starts from, and on nothing else: resolving the
/// same statements a second time, over the table that the first time has
/// left, ends in the same way and leaves the same table.
pub proof fn lemma_resolve_twice(sts: Seq<StmtView>, s: Resolved)
    ensures
        ({
            let once = resolve_stmts(sts, 0, s);
            let twice = resolve_stmts(sts, 0, Resolved { table: once.table, ..s });
            twice == once
        }),
{
    let blank = Resolved { table: Map::empty(), ..s };
    let fresh = resolve_stmts(sts, 0, blank);
    let once = resolve_stmts(sts, 0, s);
    lemma_replay_stmts(sts, 0, blank, s.table);
    assert(s.table.union_prefer_right(blank.table) =~= s.table);
    assert(replayed(blank, s.table) == s);
    assert(once == replayed(fresh, s.table));
    lemma_replay_stmts(sts, 0, blank, once.table);
    assert(once.table.union_prefer_right(blank.table) =~= once.table);
    assert(replayed(blank, once.table) == (Resolved { table: once.table, ..s }));
    assert(once.table.union_prefer_right(fresh.table) =~= once.table);
}

/// Resolver jump. A reference gets a distance if and only if a local
/// scope declares its name, and the distance is that of the innermost such
/// scope: no scope nearer to the reference declares the name.
pub proof fn lemma_reference_is_innermost(s: Resolved, id: usize, name: Seq<char>)
    requires
        s.scopes.len() <= usize::MAX,
    ensures
        ({
            let after = resolved_local(s, id, name);
            let n = s.scopes.len();
            if exists|i: int| 0 <= i < n && (#[trigger] s.scopes[i]).contains_key(name) {
                &&& after.table.contains_key(id)
                &&& after.table[id] < n
                &&& s.scopes[n - 1 - after.table[id]].contains_key(name)
                &&& forall|k: int|
                    0 <= k < after.table[id] ==> !(#[trigger] s.scopes[n - 1 - k]).contains_key(name)
            } else {
                after == s
            }
        }),
{
    lemma_depth_is_innermost(s.scopes, name);
}

} // verus!
