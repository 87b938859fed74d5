//! The evaluator: a machine that walks the syntax tree one step at a time.
//!
//! The work still to do is a stack of tasks, the operands computed so far a
//! stack of values. One step takes the topmost task. Whatever the machine
//! cannot do by itself (arithmetic on numbers, writing output) it hands to
//! its caller as a signal; the caller supplies the answer and steps on.
//!
//! A block and a call run in an environment of their own. When they end,
//! at their end, by a `return` or by an error, the environment they were
//! entered from is active again, and their own environment is destroyed
//! unless a function that was declared in it may still need it.

use std::collections::HashMap;
use vstd::prelude::*;
use vstd::string::StringExecFns;
use crate::callable::{arity_of, Callable, CallableView, Function, FunctionView};
use crate::environment::{
    ancestor, bound, holder, lookup, marked, own, released, undefined_variable, value_at,
    Environment, FrameView, Store,
};
use crate::error::{decimal, decimal_text, Error, ErrorView};
use crate::expr::{expr_views, Expr, ExprView};
use crate::object::{display, truthy, values_equal, Object, ObjectView, Printable, PrintableView};
use crate::sound::{
    lemma_initial_state_is_sound, lemma_interpret_keeps_sound, lemma_run_keeps_sound,
    lemma_step_keeps_sound, sound, value_ok,
};
use crate::stmt::{clone_stmts, stmt_views, Stmt, StmtView};
use crate::token::{Literal, LiteralView, Token, TokenType, TokenView};

verus! {

broadcast use vstd::std_specs::hash::group_hash_axioms;

/// One piece of work that the machine still has to do.
#[derive(Debug)]
pub enum Task {
    /// Execute a statement.
    Execute(Stmt),
    /// Evaluate an expression and push its value.
    Evaluate(Expr),
    /// Apply a unary operator to the topmost value.
    Unary(Token),
    /// Apply a binary operator to the two topmost values.
    Binary(Token),
    /// Decide, by the topmost value, whether the right operand of `and` or
    /// `or` is evaluated.
    Logic(Token, Expr),
    /// Assign the topmost value to a variable.
    Assign(usize, Token),
    /// Call the callee that lies under that many arguments.
    Invoke(Token, usize),
    /// Drop the topmost value.
    Discard,
    /// Print the topmost value.
    Print,
    /// Define a variable with the topmost value.
    Define(Token),
    /// Execute one of two branches, by the topmost value.
    Branch(Stmt, Option<Stmt>),
    /// Execute the body of a loop and come back, or leave it, by the topmost
    /// value.
    Loop(Expr, Stmt),
    /// End the innermost call with the topmost value.
    Return,
    /// The end of a block: go back to the environment around it.
    Leave(Environment),
    /// The end of a call: go back to the caller's environment.
    Resume(Environment),
    /// The end of a top-level statement.
    Statement,
}

/// The mathematical value of a [`Task`].
pub enum TaskView {
    Execute(StmtView),
    Evaluate(ExprView),
    Unary(TokenView),
    Binary(TokenView),
    Logic(TokenView, ExprView),
    Assign(usize, TokenView),
    Invoke(TokenView, usize),
    Discard,
    Print,
    Define(TokenView),
    Branch(StmtView, Option<StmtView>),
    Loop(ExprView, StmtView),
    Return,
    Leave(Environment),
    Resume(Environment),
    Statement,
}

impl View for Task {
    type V = TaskView;

    open spec fn view(&self) -> TaskView {
        match self {
            Task::Execute(s) => TaskView::Execute(s@),
            Task::Evaluate(e) => TaskView::Evaluate(e@),
            Task::Unary(t) => TaskView::Unary(t@),
            Task::Binary(t) => TaskView::Binary(t@),
            Task::Logic(t, e) => TaskView::Logic(t@, e@),
            Task::Assign(id, t) => TaskView::Assign(*id, t@),
            Task::Invoke(t, n) => TaskView::Invoke(t@, *n),
            Task::Discard => TaskView::Discard,
            Task::Print => TaskView::Print,
            Task::Define(t) => TaskView::Define(t@),
            Task::Branch(s, e) => TaskView::Branch(
                s@,
                match e {
                    Some(e) => Some(e@),
                    None => None,
                },
            ),
            Task::Loop(c, b) => TaskView::Loop(c@, b@),
            Task::Return => TaskView::Return,
            Task::Leave(e) => TaskView::Leave(*e),
            Task::Resume(e) => TaskView::Resume(*e),
            Task::Statement => TaskView::Statement,
        }
    }
}

/// The views of a stack of tasks, bottom first.
pub open spec fn task_views(ts: Seq<Task>) -> Seq<TaskView> {
    Seq::new(ts.len(), |i: int| ts[i]@)
}

/// The views of a stack of values, bottom first.
pub open spec fn object_views(vs: Seq<Object>) -> Seq<ObjectView> {
    Seq::new(vs.len(), |i: int| vs[i]@)
}

/// What a step asks of the caller.
#[derive(Debug)]
pub enum Signal {
    /// Nothing: step again.
    Continue,
    /// Apply the operator to two numbers and supply the result: a number
    /// for `+ - * /`, a boolean for `< <= > >=`.
    Number { operator: TokenType, left: u32, right: u32 },
    /// Negate the number and supply the result.
    Negate { operand: u32 },
    /// Supply the number of that many whole seconds.
    Seconds { whole: i64 },
    /// Write the value and a line end.
    Print(Printable),
    /// A top-level statement has ended with this error.
    Fault(Error),
    /// No work is left.
    Done,
}

/// The mathematical value of a [`Signal`].
pub enum SignalView {
    Continue,
    Number { operator: TokenType, left: u32, right: u32 },
    Negate { operand: u32 },
    Seconds { whole: i64 },
    Print(PrintableView),
    Fault(ErrorView),
    Done,
}

impl View for Signal {
    type V = SignalView;

    open spec fn view(&self) -> SignalView {
        match self {
            Signal::Continue => SignalView::Continue,
            Signal::Number { operator, left, right } => SignalView::Number {
                operator: *operator,
                left: *left,
                right: *right,
            },
            Signal::Negate { operand } => SignalView::Negate { operand: *operand },
            Signal::Seconds { whole } => SignalView::Seconds { whole: *whole },
            Signal::Print(p) => SignalView::Print(p@),
            Signal::Fault(e) => SignalView::Fault(e@),
            Signal::Done => SignalView::Done,
        }
    }
}

/// The evaluator's state.
#[derive(Debug)]
pub struct Interpreter {
    /// The memory of all environments.
    pub store: Store,
    /// The active environment.
    pub env: Environment,
    /// The outermost environment.
    pub globals: Environment,
    /// The resolution table: for the identity of a variable reference, the
    /// number of scopes between it and its declaration.
    pub locals: HashMap<usize, usize>,
    /// The work still to do; the last entry is done next.
    pub tasks: Vec<Task>,
    /// The operands computed so far.
    pub values: Vec<Object>,
}

/// The mathematical value of an [`Interpreter`].
pub struct State {
    pub store: Seq<FrameView>,
    pub env: Environment,
    pub globals: Environment,
    pub locals: Map<usize, usize>,
    pub tasks: Seq<TaskView>,
    pub values: Seq<ObjectView>,
}

impl View for Interpreter {
    type V = State;

    open spec fn view(&self) -> State {
        State {
            store: self.store@,
            env: self.env,
            globals: self.globals,
            locals: self.locals@,
            tasks: task_views(self.tasks@),
            values: object_views(self.values@),
        }
    }
}

/// The value `nil`.
pub open spec fn nil() -> ObjectView {
    ObjectView::Literal(LiteralView::Nil)
}

/// The state with one more task on top.
pub open spec fn with_task(m: State, t: TaskView) -> State {
    State { tasks: m.tasks.push(t), ..m }
}

/// The state with one more value on top.
pub open spec fn with_value(m: State, v: ObjectView) -> State {
    State { values: m.values.push(v), ..m }
}

/// The topmost value. An absent operand reads as `nil`.
pub open spec fn top_value(m: State) -> ObjectView {
    if m.values.len() == 0 {
        nil()
    } else {
        m.values.last()
    }
}

/// The state without its topmost value.
pub open spec fn without_value(m: State) -> State {
    if m.values.len() == 0 {
        m
    } else {
        State { values: m.values.drop_last(), ..m }
    }
}

/// The state after a step that needs nothing from the caller.
pub open spec fn proceed(m: State) -> (State, SignalView) {
    (m, SignalView::Continue)
}

/// What is left of the tasks, and the environment that is active, once an
/// error has ended the top-level statement that was running: every block
/// and call on the way out gives back the environment it was entered from.
pub open spec fn unwind_fault(tasks: Seq<TaskView>, env: Environment) -> (Seq<TaskView>, Environment)
    decreases tasks.len(),
{
    if tasks.len() == 0 {
        (tasks, env)
    } else {
        match tasks.last() {
            TaskView::Statement => (tasks.drop_last(), env),
            TaskView::Leave(e) => unwind_fault(tasks.drop_last(), e),
            TaskView::Resume(e) => unwind_fault(tasks.drop_last(), e),
            _ => unwind_fault(tasks.drop_last(), env),
        }
    }
}

/// The store once an error has ended the top-level statement that was
/// running: every block and call on the way out has left its environment.
pub open spec fn fault_store(tasks: Seq<TaskView>, env: Environment, store: Seq<FrameView>) -> Seq<
    FrameView,
>
    decreases tasks.len(),
{
    if tasks.len() == 0 {
        store
    } else {
        match tasks.last() {
            TaskView::Statement => store,
            TaskView::Leave(e) => fault_store(
                tasks.drop_last(),
                e,
                released(store, env.index, e.index),
            ),
            TaskView::Resume(e) => fault_store(
                tasks.drop_last(),
                e,
                released(store, env.index, e.index),
            ),
            _ => fault_store(tasks.drop_last(), env, store),
        }
    }
}

/// The state and signal after a runtime error.
pub open spec fn failed(m: State, error: ErrorView) -> (State, SignalView) {
    let (tasks, env) = unwind_fault(m.tasks, m.env);
    (
        State {
            tasks,
            env,
            store: fault_store(m.tasks, m.env, m.store),
            values: Seq::empty(),
            ..m
        },
        SignalView::Fault(error),
    )
}

/// What is left of the tasks, and the environment that is active, once a
/// `return` has ended the innermost call; `false` if no call was running.
pub open spec fn unwind_return(tasks: Seq<TaskView>, env: Environment) -> (
    Seq<TaskView>,
    Environment,
    bool,
)
    decreases tasks.len(),
{
    if tasks.len() == 0 {
        (tasks, env, false)
    } else {
        match tasks.last() {
            TaskView::Statement => (tasks.drop_last(), env, false),
            TaskView::Resume(e) => (tasks.drop_last(), e, true),
            TaskView::Leave(e) => unwind_return(tasks.drop_last(), e),
            _ => unwind_return(tasks.drop_last(), env),
        }
    }
}

/// The store once a `return` has ended the innermost call: the call, and
/// every block in it on the way out, has left its environment.
pub open spec fn return_store(tasks: Seq<TaskView>, env: Environment, store: Seq<FrameView>) -> Seq<
    FrameView,
>
    decreases tasks.len(),
{
    if tasks.len() == 0 {
        store
    } else {
        match tasks.last() {
            TaskView::Statement => store,
            TaskView::Resume(e) => released(store, env.index, e.index),
            TaskView::Leave(e) => return_store(
                tasks.drop_last(),
                e,
                released(store, env.index, e.index),
            ),
            _ => return_store(tasks.drop_last(), env, store),
        }
    }
}

/// The state and signal after a `return` with the topmost value.
pub open spec fn returned(m: State) -> (State, SignalView) {
    let v = top_value(m);
    let rest = without_value(m);
    let (tasks, env, caught) = unwind_return(rest.tasks, rest.env);
    let store = return_store(rest.tasks, rest.env, rest.store);
    if caught {
        proceed(State { tasks, env, store, values: rest.values.push(v), ..rest })
    } else {
        (
            State { tasks, env, store, values: Seq::empty(), ..rest },
            SignalView::Fault(ErrorView::Return(v)),
        )
    }
}

/// The state after the active environment has been left for `saved`.
pub open spec fn left(m: State, saved: Environment) -> State {
    State { env: saved, store: released(m.store, m.env.index, saved.index), ..m }
}

/// The tasks with one `Execute` for each statement on top, the first
/// statement topmost.
pub open spec fn schedule(tasks: Seq<TaskView>, stmts: Seq<StmtView>) -> Seq<TaskView>
    decreases stmts.len(),
{
    if stmts.len() == 0 {
        tasks
    } else {
        schedule(tasks.push(TaskView::Execute(stmts.last())), stmts.drop_last())
    }
}

/// The tasks with one `Evaluate` for each argument on top, the first
/// argument topmost.
pub open spec fn schedule_arguments(tasks: Seq<TaskView>, args: Seq<ExprView>) -> Seq<TaskView>
    decreases args.len(),
{
    if args.len() == 0 {
        tasks
    } else {
        schedule_arguments(tasks.push(TaskView::Evaluate(args.last())), args.drop_last())
    }
}

/// The tasks with each statement of a program on top, the first statement
/// topmost, and under each statement the mark of its end.
pub open spec fn schedule_program(tasks: Seq<TaskView>, stmts: Seq<StmtView>) -> Seq<TaskView>
    decreases stmts.len(),
{
    if stmts.len() == 0 {
        tasks
    } else {
        schedule_program(
            tasks.push(TaskView::Statement).push(TaskView::Execute(stmts.last())),
            stmts.drop_last(),
        )
    }
}

/// The state after a block of statements has been entered in the
/// environment `env`: its statements are scheduled, and under them the task
/// that goes back to the environment that was active.
pub open spec fn block_entered(m: State, stmts: Seq<StmtView>, env: Environment) -> State {
    State { tasks: schedule(m.tasks.push(TaskView::Leave(m.env)), stmts), env, ..m }
}

/// The store with a new, empty environment enclosed by `enclosing`.
pub open spec fn extended(store: Seq<FrameView>, enclosing: Environment) -> Seq<FrameView> {
    store.push(
        FrameView { enclosing: Some(enclosing.index), values: Map::empty(), captured: false },
    )
}

/// The environment that the next call of [`Environment::new`] returns.
pub open spec fn fresh(store: Seq<FrameView>) -> Environment {
    Environment { index: store.len() as usize }
}

/// The error of a runtime failure at a token.
pub open spec fn runtime_error(token: TokenView, message: Seq<char>) -> ErrorView {
    ErrorView::RuntimeError(token, message)
}

/// The message for a call with the wrong number of arguments.
pub open spec fn arity_message(expected: nat, got: nat) -> Seq<char> {
    "Expected "@ + decimal(expected) + " arguments but got "@ + decimal(got) + "."@
}

/// What an operator makes of its operands.
#[derive(Debug)]
pub enum Outcome {
    /// The result.
    Value(Object),
    /// The operands are numbers: the result is the caller's to compute.
    Number { operator: TokenType, left: u32, right: u32 },
    /// The operand is a number to negate.
    Negate { operand: u32 },
    /// The operands do not fit the operator.
    Failure(Error),
}

/// The mathematical value of an [`Outcome`].
pub enum OutcomeView {
    Value(ObjectView),
    Number { operator: TokenType, left: u32, right: u32 },
    Negate { operand: u32 },
    Failure(ErrorView),
}

impl View for Outcome {
    type V = OutcomeView;

    open spec fn view(&self) -> OutcomeView {
        match self {
            Outcome::Value(o) => OutcomeView::Value(o@),
            Outcome::Number { operator, left, right } => OutcomeView::Number {
                operator: *operator,
                left: *left,
                right: *right,
            },
            Outcome::Negate { operand } => OutcomeView::Negate { operand: *operand },
            Outcome::Failure(e) => OutcomeView::Failure(e@),
        }
    }
}

/// Whether the operator computes with numbers only: arithmetic but `+`, and
/// the four comparisons.
pub open spec fn numeric_only(t: TokenType) -> bool {
    t == TokenType::MINUS || t == TokenType::SLASH || t == TokenType::STAR || t
        == TokenType::GREATER || t == TokenType::GreaterEqual || t == TokenType::LESS || t
        == TokenType::LessEqual
}

/// What a binary operator makes of two values.
///
/// `==` and `!=` compare any two values. `+` adds two numbers or joins two
/// strings. The other arithmetic operators and the comparisons take two
/// numbers. What is computed on numbers is left to the caller.
pub open spec fn binary_outcome(operator: TokenView, left: ObjectView, right: ObjectView) -> OutcomeView {
    let t = operator.token_type;
    if t == TokenType::EqualEqual {
        OutcomeView::Value(ObjectView::Literal(LiteralView::Bool(values_equal(left, right))))
    } else if t == TokenType::BangEqual {
        OutcomeView::Value(ObjectView::Literal(LiteralView::Bool(!values_equal(left, right))))
    } else {
        match (left, right) {
            (
                ObjectView::Literal(LiteralView::Num(a)),
                ObjectView::Literal(LiteralView::Num(b)),
            ) => if t == TokenType::PLUS || numeric_only(t) {
                OutcomeView::Number { operator: t, left: a, right: b }
            } else {
                OutcomeView::Value(nil())
            },
            (
                ObjectView::Literal(LiteralView::Str(a)),
                ObjectView::Literal(LiteralView::Str(b)),
            ) => if t == TokenType::PLUS {
                OutcomeView::Value(ObjectView::Literal(LiteralView::Str(a + b)))
            } else if numeric_only(t) {
                OutcomeView::Failure(runtime_error(operator, "Operands must be numbers."@))
            } else {
                OutcomeView::Value(nil())
            },
            _ => if t == TokenType::PLUS {
                OutcomeView::Failure(
                    runtime_error(operator, "Operands must be two numbers or two strings."@),
                )
            } else {
                OutcomeView::Failure(runtime_error(operator, "Operands must be numbers."@))
            },
        }
    }
}

/// What a unary operator makes of a value: `!` negates its truthiness, `-`
/// takes a number, whose negation is left to the caller.
pub open spec fn unary_outcome(operator: TokenView, right: ObjectView) -> OutcomeView {
    if operator.token_type == TokenType::BANG {
        OutcomeView::Value(ObjectView::Literal(LiteralView::Bool(!truthy(right))))
    } else if operator.token_type == TokenType::MINUS {
        match right {
            ObjectView::Literal(LiteralView::Num(x)) => OutcomeView::Negate { operand: x },
            _ => OutcomeView::Failure(runtime_error(operator, "Operand must be a number."@)),
        }
    } else {
        OutcomeView::Failure(runtime_error(operator, "Operand must be a number."@))
    }
}

/// Whether `and` or `or` is decided by its left operand alone: `or` by a
/// truthy one, `and` by a falsy one.
pub open spec fn short_circuits(operator: TokenView, left: ObjectView) -> bool {
    if operator.token_type == TokenType::OR {
        truthy(left)
    } else {
        !truthy(left)
    }
}

fn is_numeric_only(t: TokenType) -> (r: bool)
    ensures
        r == numeric_only(t),
{
    t == TokenType::MINUS || t == TokenType::SLASH || t == TokenType::STAR || t
        == TokenType::GREATER || t == TokenType::GreaterEqual || t == TokenType::LESS || t
        == TokenType::LessEqual
}

fn failure(operator: &Token, message: &str) -> (r: Error)
    ensures
        r@ == runtime_error(operator@, message@),
{
    Error::RuntimeError(operator.clone(), String::from_str(message))
}

/// Applies a binary operator to two values.
pub fn binary_operation(operator: &Token, left: Object, right: Object) -> (r: Outcome)
    ensures
        r@ == binary_outcome(operator@, left@, right@),
{
    let t = operator.token_type;
    if t == TokenType::EqualEqual {
        Outcome::Value(Object::Literal(Literal::Bool(left.equals(&right))))
    } else if t == TokenType::BangEqual {
        Outcome::Value(Object::Literal(Literal::Bool(!left.equals(&right))))
    } else {
        match (left, right) {
            (Object::Literal(Literal::Num(a)), Object::Literal(Literal::Num(b))) => {
                if t == TokenType::PLUS || is_numeric_only(t) {
                    Outcome::Number { operator: t, left: a, right: b }
                } else {
                    Outcome::Value(Object::nil())
                }
            },
            (Object::Literal(Literal::Str(a)), Object::Literal(Literal::Str(b))) => {
                if t == TokenType::PLUS {
                    let mut res = a;
                    res.append(b.as_str());
                    Outcome::Value(Object::Literal(Literal::Str(res)))
                } else if is_numeric_only(t) {
                    Outcome::Failure(failure(operator, "Operands must be numbers."))
                } else {
                    Outcome::Value(Object::nil())
                }
            },
            (_, _) => {
                if t == TokenType::PLUS {
                    Outcome::Failure(
                        failure(operator, "Operands must be two numbers or two strings."),
                    )
                } else {
                    Outcome::Failure(failure(operator, "Operands must be numbers."))
                }
            },
        }
    }
}

/// Applies a unary operator to a value.
pub fn unary_operation(operator: &Token, right: Object) -> (r: Outcome)
    ensures
        r@ == unary_outcome(operator@, right@),
{
    if operator.token_type == TokenType::BANG {
        Outcome::Value(Object::Literal(Literal::Bool(!right.is_truthy())))
    } else if operator.token_type == TokenType::MINUS {
        match right {
            Object::Literal(Literal::Num(x)) => Outcome::Negate { operand: x },
            _ => Outcome::Failure(failure(operator, "Operand must be a number.")),
        }
    } else {
        Outcome::Failure(failure(operator, "Operand must be a number."))
    }
}


/// The whole seconds in a number of milliseconds, rounded towards zero.
pub open spec fn whole_seconds(millis: i64) -> i64 {
    if millis >= 0 {
        (millis / 1000) as i64
    } else {
        (-((-millis) / 1000)) as i64
    }
}

/// The store after the first `count` parameters are bound, in order, to
/// the first `count` arguments in the environment `env`.
pub open spec fn bind_params(
    store: Seq<FrameView>,
    env: usize,
    params: Seq<TokenView>,
    args: Seq<ObjectView>,
    count: nat,
) -> Seq<FrameView>
    decreases count,
{
    if count == 0 || count > params.len() || count > args.len() {
        store
    } else {
        bound(
            bind_params(store, env, params, args, (count - 1) as nat),
            env,
            params[count - 1].lexeme,
            args[count - 1],
        )
    }
}

/// The smaller of two lengths.
pub open spec fn shorter(a: nat, b: nat) -> nat {
    if a <= b {
        a
    } else {
        b
    }
}

/// The state and signal after a callable is called with arguments.
///
/// The clock asks the caller for the number of the whole seconds it read.
/// A function gets a new environment, enclosed by the environment of its
/// declaration and not by the caller's; there its parameters are bound to
/// the arguments, and its body is scheduled over the task that goes back to
/// the caller's environment.
pub open spec fn called(m: State, callee: CallableView, args: Seq<ObjectView>, millis: i64) -> (
    State,
    SignalView,
) {
    match callee {
        CallableView::Clock => (m, SignalView::Seconds { whole: whole_seconds(millis) }),
        CallableView::Function(f) => {
            let env = fresh(m.store);
            let store = bind_params(
                extended(m.store, f.closure),
                env.index,
                f.params,
                args,
                shorter(f.params.len(), args.len()),
            );
            proceed(
                State {
                    store,
                    tasks: schedule(m.tasks.push(TaskView::Resume(m.env)), f.body),
                    env,
                    ..m
                },
            )
        },
    }
}

/// The state and signal after a call of the callee that lies under `count`
/// arguments on the stack of values.
pub open spec fn invoked(m: State, paren: TokenView, count: usize, millis: i64) -> (State, SignalView) {
    let k = shorter(count as nat, m.values.len());
    let args = m.values.subrange(m.values.len() - k, m.values.len() as int);
    let below = State { values: m.values.subrange(0, m.values.len() - k), ..m };
    let callee = top_value(below);
    let rest = without_value(below);
    match callee {
        ObjectView::Callable(c) => if count != arity_of(c) {
            failed(rest, runtime_error(paren, arity_message(arity_of(c), count as nat)))
        } else {
            called(rest, c, args, millis)
        },
        _ => failed(rest, runtime_error(paren, "Can only call functions and classes."@)),
    }
}

/// The value of a variable reference: by the resolved distance where the
/// reference has one, in the outermost environment where it has none.
pub open spec fn variable_value(m: State, id: usize, name: TokenView) -> Option<ObjectView> {
    if m.locals.contains_key(id) {
        match value_at(m.store, m.env.index, m.locals[id] as nat, name.lexeme) {
            Some(v) => Some(v),
            None => lookup(m.store, m.env.index, name.lexeme),
        }
    } else {
        lookup(m.store, m.globals.index, name.lexeme)
    }
}

/// The environment that an assignment writes to, if the variable exists.
pub open spec fn assignment_target(m: State, id: usize, name: TokenView) -> Option<usize> {
    if m.locals.contains_key(id) {
        match ancestor(m.store, m.env.index, m.locals[id] as nat) {
            Some(a) => if own(m.store, a, name.lexeme) is Some {
                Some(a)
            } else {
                holder(m.store, m.env.index, name.lexeme)
            },
            None => holder(m.store, m.env.index, name.lexeme),
        }
    } else {
        holder(m.store, m.globals.index, name.lexeme)
    }
}

/// The state and signal after the topmost value is assigned to a variable.
/// The value stays: it is the value of the assignment.
pub open spec fn assigned(m: State, id: usize, name: TokenView) -> (State, SignalView) {
    let v = top_value(m);
    let rest = without_value(m);
    match assignment_target(m, id, name) {
        Some(target) => proceed(
            with_value(State { store: bound(m.store, target, name.lexeme, v), ..rest }, v),
        ),
        None => failed(rest, undefined_variable(name)),
    }
}

/// The state and signal after an operator has been applied.
pub open spec fn applied(m: State, outcome: OutcomeView) -> (State, SignalView) {
    match outcome {
        OutcomeView::Value(v) => proceed(with_value(m, v)),
        OutcomeView::Number { operator, left, right } => (
            m,
            SignalView::Number { operator, left, right },
        ),
        OutcomeView::Negate { operand } => (m, SignalView::Negate { operand }),
        OutcomeView::Failure(e) => failed(m, e),
    }
}

/// The state and signal after an expression is taken up.
pub open spec fn evaluated(m: State, e: ExprView) -> (State, SignalView) {
    match e {
        ExprView::Literal { value } => proceed(with_value(m, ObjectView::Literal(value))),
        ExprView::Grouping { expression } => proceed(with_task(m, TaskView::Evaluate(*expression))),
        ExprView::Unary { operator, right } => proceed(
            with_task(with_task(m, TaskView::Unary(operator)), TaskView::Evaluate(*right)),
        ),
        ExprView::Binary { left, operator, right } => proceed(
            with_task(
                with_task(with_task(m, TaskView::Binary(operator)), TaskView::Evaluate(*right)),
                TaskView::Evaluate(*left),
            ),
        ),
        ExprView::Logic { left, operator, right } => proceed(
            with_task(with_task(m, TaskView::Logic(operator, *right)), TaskView::Evaluate(*left)),
        ),
        ExprView::Assign { id, name, value } => proceed(
            with_task(with_task(m, TaskView::Assign(id, name)), TaskView::Evaluate(*value)),
        ),
        ExprView::Call { callee, paren, arguments } => proceed(
            with_task(
                State {
                    tasks: schedule_arguments(
                        m.tasks.push(TaskView::Invoke(paren, arguments.len() as usize)),
                        arguments,
                    ),
                    ..m
                },
                TaskView::Evaluate(*callee),
            ),
        ),
        ExprView::Variable { id, name } => match variable_value(m, id, name) {
            Some(v) => proceed(with_value(m, v)),
            None => failed(m, undefined_variable(name)),
        },
    }
}

/// The state and signal after a statement is taken up.
pub open spec fn executed(m: State, s: StmtView) -> (State, SignalView) {
    match s {
        StmtView::Expression { expression } => proceed(
            with_task(with_task(m, TaskView::Discard), TaskView::Evaluate(expression)),
        ),
        StmtView::Print { expression } => proceed(
            with_task(with_task(m, TaskView::Print), TaskView::Evaluate(expression)),
        ),
        StmtView::Var { name, expression } => proceed(
            with_task(with_task(m, TaskView::Define(name)), TaskView::Evaluate(expression)),
        ),
        StmtView::Return { keyword, value } => proceed(
            with_task(with_task(m, TaskView::Return), TaskView::Evaluate(value)),
        ),
        StmtView::Block { stmts } => proceed(
            block_entered(State { store: extended(m.store, m.env), ..m }, stmts, fresh(m.store)),
        ),
        StmtView::Function { name, params, body } => proceed(
            State {
                store: bound(
                    marked(m.store, m.env.index),
                    m.env.index,
                    name.lexeme,
                    ObjectView::Callable(
                        CallableView::Function(FunctionView { name, params, body, closure: m.env }),
                    ),
                ),
                ..m
            },
        ),
        StmtView::If { condition, then_branch, else_branch } => proceed(
            with_task(
                with_task(
                    m,
                    TaskView::Branch(
                        *then_branch,
                        match else_branch {
                            Some(e) => Some(*e),
                            None => None,
                        },
                    ),
                ),
                TaskView::Evaluate(condition),
            ),
        ),
        StmtView::While { condition, body } => proceed(
            with_task(with_task(m, TaskView::Loop(condition, *body)), TaskView::Evaluate(condition)),
        ),
    }
}

/// The state and signal after the task `t` is done in the state `m`.
pub open spec fn performed(m: State, t: TaskView, millis: i64) -> (State, SignalView) {
    match t {
        TaskView::Execute(s) => executed(m, s),
        TaskView::Evaluate(e) => evaluated(m, e),
        TaskView::Unary(operator) => applied(
            without_value(m),
            unary_outcome(operator, top_value(m)),
        ),
        TaskView::Binary(operator) => {
            let right = top_value(m);
            let left = top_value(without_value(m));
            applied(without_value(without_value(m)), binary_outcome(operator, left, right))
        },
        TaskView::Logic(operator, right) => if short_circuits(operator, top_value(m)) {
            proceed(with_value(without_value(m), top_value(m)))
        } else {
            proceed(with_task(without_value(m), TaskView::Evaluate(right)))
        },
        TaskView::Assign(id, name) => assigned(m, id, name),
        TaskView::Invoke(paren, count) => invoked(m, paren, count, millis),
        TaskView::Discard => proceed(without_value(m)),
        TaskView::Print => (without_value(m), SignalView::Print(display(top_value(m)))),
        TaskView::Define(name) => proceed(
            State {
                store: bound(m.store, m.env.index, name.lexeme, top_value(m)),
                ..without_value(m)
            },
        ),
        TaskView::Branch(then_branch, else_branch) => if truthy(top_value(m)) {
            proceed(with_task(without_value(m), TaskView::Execute(then_branch)))
        } else {
            match else_branch {
                Some(e) => proceed(with_task(without_value(m), TaskView::Execute(e))),
                None => proceed(without_value(m)),
            }
        },
        TaskView::Loop(condition, body) => if truthy(top_value(m)) {
            proceed(
                with_task(
                    with_task(
                        without_value(m),
                        TaskView::Execute(StmtView::While { condition, body: Box::new(body) }),
                    ),
                    TaskView::Execute(body),
                ),
            )
        } else {
            proceed(without_value(m))
        },
        TaskView::Return => returned(m),
        TaskView::Leave(e) => proceed(left(m, e)),
        TaskView::Resume(e) => proceed(with_value(left(m, e), nil())),
        TaskView::Statement => proceed(m),
    }
}

/// One step of the machine: the topmost task is taken and done. `millis`
/// is what the clock reads, should the step read it.
pub open spec fn step_spec(m: State, millis: i64) -> (State, SignalView) {
    if m.tasks.len() == 0 {
        (m, SignalView::Done)
    } else {
        performed(State { tasks: m.tasks.drop_last(), ..m }, m.tasks.last(), millis)
    }
}

/// Steps until a step asks something of the caller, at most `budget` times.
pub open spec fn run_spec(m: State, budget: nat, millis: i64) -> (State, SignalView)
    decreases budget,
{
    if budget == 0 {
        (m, SignalView::Continue)
    } else {
        let (next, signal) = step_spec(m, millis);
        if signal is Continue {
            run_spec(next, (budget - 1) as nat, millis)
        } else {
            (next, signal)
        }
    }
}

/// The state of a new interpreter: one environment, the outermost, which
/// binds `clock`; nothing to do.
pub open spec fn initial_state() -> State {
    State {
        store: seq![
            FrameView {
                enclosing: None,
                values: Map::empty().insert(
                    "clock"@,
                    ObjectView::Callable(CallableView::Clock),
                ),
                captured: false,
            },
        ],
        env: Environment { index: 0 },
        globals: Environment { index: 0 },
        locals: Map::empty(),
        tasks: Seq::empty(),
        values: Seq::empty(),
    }
}

/// Reads the clock with `chrono::Local::now` and turns the reading into a
/// number with `chrono::DateTime::timestamp_millis`: the milliseconds since
/// the start of 1970. Nothing is claimed of the result: it is the time.
/// `Local::now` does not return where the system clock stands before 1970.
#[verifier::external_body]
fn local_timestamp_millis() -> (r: i64) {
    chrono::Local::now().timestamp_millis()
}

fn seconds_of(millis: i64) -> (r: i64)
    ensures
        r == whole_seconds(millis),
{
    if millis >= 0 {
        millis / 1000
    } else if millis == i64::MIN {
        -9223372036854775
    } else {
        -((-millis) / 1000)
    }
}

fn arity_error(paren: &Token, expected: usize, got: usize) -> (r: Error)
    ensures
        r@ == runtime_error(paren@, arity_message(expected as nat, got as nat)),
{
    let mut message = String::from_str("Expected ");
    let e = decimal_text(expected);
    message.append(e.as_str());
    message.append(" arguments but got ");
    let g = decimal_text(got);
    message.append(g.as_str());
    message.append(".");
    Error::RuntimeError(paren.clone(), message)
}

impl Interpreter {
    /// A new interpreter: its outermost environment binds `clock`, and is
    /// the active one.
    pub fn new() -> (r: Interpreter)
        ensures
            r@ == initial_state(),
            sound(r@),
    {
        proof {
            lemma_initial_state_is_sound();
        }
        let mut store = Store::new();
        let globals = Environment::new(&mut store, None);
        globals.define(&mut store, String::from_str("clock"), &Object::Callable(Callable::Clock));
        let r = Interpreter {
            store,
            env: globals,
            globals,
            locals: HashMap::new(),
            tasks: Vec::new(),
            values: Vec::new(),
        };
        assert(r@.store =~= initial_state().store);
        assert(r@.tasks =~= initial_state().tasks);
        assert(r@.values =~= initial_state().values);
        assert(r@.locals =~= initial_state().locals);
        r
    }

    fn push_task(&mut self, t: Task)
        ensures
            final(self)@ == with_task(old(self)@, t@),
    {
        self.tasks.push(t);
        assert(task_views(self.tasks@) =~= task_views(old(self).tasks@).push(t@));
    }

    fn pop_task(&mut self) -> (r: Option<Task>)
        ensures
            match r {
                Some(t) => old(self)@.tasks.len() > 0 && t@ == old(self)@.tasks.last()
                    && final(self)@ == (State {
                    tasks: old(self)@.tasks.drop_last(),
                    ..old(self)@
                }),
                None => old(self)@.tasks.len() == 0 && final(self)@ == old(self)@,
            },
    {
        let r = self.tasks.pop();
        assert(r is Some ==> task_views(self.tasks@) =~= task_views(old(self).tasks@).drop_last());
        r
    }

    /// Supplies a value: the answer to the signal of the last step.
    pub fn supply(&mut self, value: Object)
        ensures
            final(self)@ == with_value(old(self)@, value@),
            sound(old(self)@) && value_ok(old(self)@.store, value@) ==> sound(final(self)@),
    {
        self.values.push(value);
        assert(object_views(self.values@) =~= object_views(old(self).values@).push(value@));
    }

    fn pop_value(&mut self) -> (r: Object)
        ensures
            r@ == top_value(old(self)@),
            final(self)@ == without_value(old(self)@),
    {
        match self.values.pop() {
            Some(v) => {
                assert(object_views(self.values@) =~= object_views(old(self).values@).drop_last());
                v
            },
            None => Object::nil(),
        }
    }

    /// Records that the variable reference `id` refers to the scope `depth`
    /// scopes outward from where it stands.
    pub fn resolve(&mut self, id: usize, depth: usize)
        ensures
            final(self)@ == (State { locals: old(self)@.locals.insert(id, depth), ..old(self)@ }),
    {
        self.locals.insert(id, depth);
    }

    fn depth_of(&self, id: usize) -> (r: Option<usize>)
        ensures
            match r {
                Some(d) => self@.locals.contains_key(id) && self@.locals[id] == d,
                None => !self@.locals.contains_key(id),
            },
    {
        match self.locals.get(&id) {
            Some(d) => Some(*d),
            None => None,
        }
    }

    /// Leaves the active environment for `saved`.
    fn leave(&mut self, saved: Environment)
        ensures
            final(self)@ == left(old(self)@, saved),
    {
        self.store.release(self.env.index, saved.index);
        self.env = saved;
    }

    /// Ends the running top-level statement with an error.
    fn fail(&mut self, error: Error) -> (r: Signal)
        ensures
            (final(self)@, r@) == failed(old(self)@, error@),
    {
        let mut running = true;
        while running
            invariant
                self@ == (State {
                    tasks: self@.tasks,
                    env: self@.env,
                    store: self@.store,
                    ..old(self)@
                }),
                running ==> unwind_fault(self@.tasks, self@.env) == unwind_fault(
                    old(self)@.tasks,
                    old(self)@.env,
                ),
                running ==> fault_store(self@.tasks, self@.env, self@.store) == fault_store(
                    old(self)@.tasks,
                    old(self)@.env,
                    old(self)@.store,
                ),
                !running ==> (self@.tasks, self@.env) == unwind_fault(
                    old(self)@.tasks,
                    old(self)@.env,
                ),
                !running ==> self@.store == fault_store(
                    old(self)@.tasks,
                    old(self)@.env,
                    old(self)@.store,
                ),
            decreases self.tasks@.len() + (if running { 1nat } else { 0nat }),
        {
            match self.pop_task() {
                None => {
                    running = false;
                },
                Some(Task::Statement) => {
                    running = false;
                },
                Some(Task::Leave(e)) => {
                    self.leave(e);
                },
                Some(Task::Resume(e)) => {
                    self.leave(e);
                },
                Some(_) => {},
            }
        }
        self.values = Vec::new();
        assert(object_views(self.values@) =~= Seq::<ObjectView>::empty());
        Signal::Fault(error)
    }

    /// Ends the innermost call with the topmost value.
    fn unwind(&mut self) -> (r: Signal)
        ensures
            (final(self)@, r@) == returned(old(self)@),
    {
        let value = self.pop_value();
        let ghost rest = self@;
        let mut running = true;
        let mut caught = false;
        while running
            invariant
                self@ == (State {
                    tasks: self@.tasks,
                    env: self@.env,
                    store: self@.store,
                    ..rest
                }),
                running ==> unwind_return(self@.tasks, self@.env) == unwind_return(
                    rest.tasks,
                    rest.env,
                ),
                running ==> return_store(self@.tasks, self@.env, self@.store) == return_store(
                    rest.tasks,
                    rest.env,
                    rest.store,
                ),
                running ==> !caught,
                !running ==> (self@.tasks, self@.env, caught) == unwind_return(rest.tasks, rest.env),
                !running ==> self@.store == return_store(rest.tasks, rest.env, rest.store),
            decreases self.tasks@.len() + (if running { 1nat } else { 0nat }),
        {
            match self.pop_task() {
                None => {
                    running = false;
                },
                Some(Task::Statement) => {
                    running = false;
                },
                Some(Task::Resume(e)) => {
                    self.leave(e);
                    caught = true;
                    running = false;
                },
                Some(Task::Leave(e)) => {
                    self.leave(e);
                },
                Some(_) => {},
            }
        }
        if caught {
            self.supply(value);
            Signal::Continue
        } else {
            self.values = Vec::new();
            assert(object_views(self.values@) =~= Seq::<ObjectView>::empty());
            Signal::Fault(Error::Return(value))
        }
    }

    fn schedule_statements(&mut self, stmts: Vec<Stmt>)
        ensures
            final(self)@ == (State {
                tasks: schedule(old(self)@.tasks, stmt_views(stmts@)),
                ..old(self)@
            }),
    {
        let mut stmts = stmts;
        let ghost all = stmt_views(stmts@);
        while stmts.len() > 0
            invariant
                self@ == (State { tasks: self@.tasks, ..old(self)@ }),
                schedule(self@.tasks, stmt_views(stmts@)) == schedule(old(self)@.tasks, all),
            decreases stmts.len(),
        {
            let ghost before = stmt_views(stmts@);
            let s = stmts.pop().unwrap();
            assert(before.drop_last() =~= stmt_views(stmts@));
            assert(before.last() == s@);
            self.push_task(Task::Execute(s));
        }
    }

    fn schedule_expressions(&mut self, args: Vec<Expr>)
        ensures
            final(self)@ == (State {
                tasks: schedule_arguments(old(self)@.tasks, expr_views(args@)),
                ..old(self)@
            }),
    {
        let mut args = args;
        let ghost all = expr_views(args@);
        while args.len() > 0
            invariant
                self@ == (State { tasks: self@.tasks, ..old(self)@ }),
                schedule_arguments(self@.tasks, expr_views(args@)) == schedule_arguments(
                    old(self)@.tasks,
                    all,
                ),
            decreases args.len(),
        {
            let ghost before = expr_views(args@);
            let e = args.pop().unwrap();
            assert(before.drop_last() =~= expr_views(args@));
            assert(before.last() == e@);
            self.push_task(Task::Evaluate(e));
        }
    }

    /// Takes up a program: schedules its statements over the work that is
    /// still to do, the first statement topmost.
    pub fn interpret(&mut self, stmts: Vec<Stmt>)
        ensures
            final(self)@ == (State {
                tasks: schedule_program(old(self)@.tasks, stmt_views(stmts@)),
                ..old(self)@
            }),
            sound(old(self)@) ==> sound(final(self)@),
    {
        proof {
            if sound(old(self)@) {
                lemma_interpret_keeps_sound(old(self)@, stmt_views(stmts@));
            }
        }
        let mut stmts = stmts;
        let ghost all = stmt_views(stmts@);
        while stmts.len() > 0
            invariant
                self@ == (State { tasks: self@.tasks, ..old(self)@ }),
                schedule_program(self@.tasks, stmt_views(stmts@)) == schedule_program(
                    old(self)@.tasks,
                    all,
                ),
            decreases stmts.len(),
        {
            let ghost before = stmt_views(stmts@);
            let s = stmts.pop().unwrap();
            assert(before.drop_last() =~= stmt_views(stmts@));
            assert(before.last() == s@);
            self.push_task(Task::Statement);
            self.push_task(Task::Execute(s));
        }
    }

    fn enter_block(&mut self, stmts: Vec<Stmt>, env: Environment)
        ensures
            final(self)@ == block_entered(old(self)@, stmt_views(stmts@), env),
    {
        let previous = self.env;
        self.push_task(Task::Leave(previous));
        self.schedule_statements(stmts);
        self.env = env;
    }

    /// Enters a block: the statements are scheduled to run in the
    /// environment `env`, and after them, however they end, the environment
    /// that is active now is active again.
    pub fn execute_block(&mut self, stmts: &Vec<Stmt>, env: Environment)
        ensures
            final(self)@ == block_entered(old(self)@, stmt_views(stmts@), env),
    {
        self.enter_block(clone_stmts(stmts), env);
    }

    fn apply(&mut self, outcome: Outcome) -> (r: Signal)
        ensures
            (final(self)@, r@) == applied(old(self)@, outcome@),
    {
        match outcome {
            Outcome::Value(v) => {
                self.supply(v);
                Signal::Continue
            },
            Outcome::Number { operator, left, right } => Signal::Number { operator, left, right },
            Outcome::Negate { operand } => Signal::Negate { operand },
            Outcome::Failure(e) => self.fail(e),
        }
    }

    fn lookup_variable(&self, id: usize, name: &Token) -> (r: Result<Object, Error>)
        ensures
            match variable_value(self@, id, name@) {
                Some(v) => r matches Ok(o) && o@ == v,
                None => r matches Err(e) && e@ == undefined_variable(name@),
            },
    {
        match self.depth_of(id) {
            Some(distance) => match self.env.get_at(&self.store, distance, &name.lexeme) {
                Some(x) => Ok(x),
                None => self.env.get(&self.store, name),
            },
            None => self.globals.get(&self.store, name),
        }
    }

    fn assign(&mut self, id: usize, name: Token) -> (r: Signal)
        ensures
            (final(self)@, r@) == assigned(old(self)@, id, name@),
    {
        let value = self.pop_value();
        let written = match self.depth_of(id) {
            Some(distance) => match self.env.assign_at(&mut self.store, distance, &name, &value) {
                Some(_) => Ok(()),
                None => self.env.assign(&mut self.store, &name, &value),
            },
            None => self.globals.assign(&mut self.store, &name, &value),
        };
        match written {
            Ok(_) => {
                self.supply(value);
                Signal::Continue
            },
            Err(e) => self.fail(e),
        }
    }

    fn evaluate(&mut self, expr: Expr) -> (r: Signal)
        ensures
            (final(self)@, r@) == evaluated(old(self)@, expr@),
    {
        match expr {
            Expr::Literal { value } => {
                self.supply(Object::Literal(value));
                Signal::Continue
            },
            Expr::Grouping { expression } => {
                self.push_task(Task::Evaluate(*expression));
                Signal::Continue
            },
            Expr::Unary { operator, right } => {
                self.push_task(Task::Unary(operator));
                self.push_task(Task::Evaluate(*right));
                Signal::Continue
            },
            Expr::Binary { left, operator, right } => {
                self.push_task(Task::Binary(operator));
                self.push_task(Task::Evaluate(*right));
                self.push_task(Task::Evaluate(*left));
                Signal::Continue
            },
            Expr::Logic { left, operator, right } => {
                self.push_task(Task::Logic(operator, *right));
                self.push_task(Task::Evaluate(*left));
                Signal::Continue
            },
            Expr::Assign { id, name, value } => {
                self.push_task(Task::Assign(id, name));
                self.push_task(Task::Evaluate(*value));
                Signal::Continue
            },
            Expr::Call { callee, paren, arguments } => {
                self.push_task(Task::Invoke(paren, arguments.len()));
                self.schedule_expressions(arguments);
                self.push_task(Task::Evaluate(*callee));
                Signal::Continue
            },
            Expr::Variable { id, name } => {
                match self.lookup_variable(id, &name) {
                    Ok(v) => {
                        self.supply(v);
                        Signal::Continue
                    },
                    Err(e) => self.fail(e),
                }
            },
        }
    }

    fn execute(&mut self, stmt: Stmt) -> (r: Signal)
        ensures
            (final(self)@, r@) == executed(old(self)@, stmt@),
    {
        match stmt {
            Stmt::Expression { expression } => {
                self.push_task(Task::Discard);
                self.push_task(Task::Evaluate(expression));
            },
            Stmt::Print { expression } => {
                self.push_task(Task::Print);
                self.push_task(Task::Evaluate(expression));
            },
            Stmt::Var { name, expression } => {
                self.push_task(Task::Define(name));
                self.push_task(Task::Evaluate(expression));
            },
            Stmt::Return { keyword, value } => {
                self.push_task(Task::Return);
                self.push_task(Task::Evaluate(value));
            },
            Stmt::Block { stmts } => {
                let env = Environment::new(&mut self.store, Some(self.env));
                self.enter_block(stmts, env);
            },
            Stmt::Function { name, params, body } => {
                let lexeme = name.lexeme.clone();
                let function = Object::Callable(
                    Callable::Function(Function::new(name, params, body, self.env)),
                );
                self.store.mark(self.env.index);
                self.env.define(&mut self.store, lexeme, &function);
            },
            Stmt::If { condition, then_branch, else_branch } => {
                let otherwise = match else_branch {
                    Some(e) => Some(*e),
                    None => None,
                };
                self.push_task(Task::Branch(*then_branch, otherwise));
                self.push_task(Task::Evaluate(condition));
            },
            Stmt::While { condition, body } => {
                let again = condition.clone();
                self.push_task(Task::Loop(condition, *body));
                self.push_task(Task::Evaluate(again));
            },
        }
        Signal::Continue
    }

    fn invoke(&mut self, paren: Token, count: usize) -> (r: (Signal, Ghost<i64>))
        ensures
            (final(self)@, r.0@) == invoked(old(self)@, paren@, count, r.1@),
    {
        let have = self.values.len();
        let k = if count <= have {
            count
        } else {
            have
        };
        let arguments = self.values.split_off(have - k);
        assert(object_views(self.values@) =~= old(self)@.values.subrange(0, have - k));
        assert(object_views(arguments@) =~= old(self)@.values.subrange(have - k, have as int));
        let callee = self.pop_value();
        match callee {
            Object::Callable(callable) => {
                let arity = callable.arity();
                if count != arity {
                    let e = arity_error(&paren, arity, count);
                    (self.fail(e), Ghost(0))
                } else {
                    callable.call_at(self, arguments)
                }
            },
            _ => {
                let e = failure(&paren, "Can only call functions and classes.");
                (self.fail(e), Ghost(0))
            },
        }
    }

    fn perform(&mut self, task: Task) -> (r: (Signal, Ghost<i64>))
        ensures
            (final(self)@, r.0@) == performed(old(self)@, task@, r.1@),
    {
        let ghost mut millis = 0i64;
        let signal = match task {
            Task::Execute(s) => self.execute(s),
            Task::Evaluate(e) => self.evaluate(e),
            Task::Unary(operator) => {
                let right = self.pop_value();
                self.apply(unary_operation(&operator, right))
            },
            Task::Binary(operator) => {
                let right = self.pop_value();
                let left = self.pop_value();
                self.apply(binary_operation(&operator, left, right))
            },
            Task::Logic(operator, right) => {
                let left = self.pop_value();
                let decided = if operator.token_type == TokenType::OR {
                    left.is_truthy()
                } else {
                    !left.is_truthy()
                };
                if decided {
                    self.supply(left);
                } else {
                    self.push_task(Task::Evaluate(right));
                }
                Signal::Continue
            },
            Task::Assign(id, name) => self.assign(id, name),
            Task::Invoke(paren, count) => {
                let (signal, Ghost(read)) = self.invoke(paren, count);
                proof {
                    millis = read;
                }
                signal
            },
            Task::Discard => {
                self.pop_value();
                Signal::Continue
            },
            Task::Print => {
                let value = self.pop_value();
                Signal::Print(value.printable())
            },
            Task::Define(name) => {
                let value = self.pop_value();
                self.env.define(&mut self.store, name.lexeme, &value);
                Signal::Continue
            },
            Task::Branch(then_branch, else_branch) => {
                let condition = self.pop_value();
                if condition.is_truthy() {
                    self.push_task(Task::Execute(then_branch));
                } else {
                    match else_branch {
                        Some(e) => {
                            self.push_task(Task::Execute(e));
                        },
                        None => {},
                    }
                }
                Signal::Continue
            },
            Task::Loop(condition, body) => {
                let value = self.pop_value();
                if value.is_truthy() {
                    let once = body.clone();
                    self.push_task(Task::Execute(Stmt::While { condition, body: Box::new(body) }));
                    self.push_task(Task::Execute(once));
                }
                Signal::Continue
            },
            Task::Return => self.unwind(),
            Task::Leave(e) => {
                self.leave(e);
                Signal::Continue
            },
            Task::Resume(e) => {
                self.leave(e);
                self.supply(Object::nil());
                Signal::Continue
            },
            Task::Statement => Signal::Continue,
        };
        (signal, Ghost(millis))
    }

    fn step_at(&mut self) -> (r: (Signal, Ghost<i64>))
        ensures
            (final(self)@, r.0@) == step_spec(old(self)@, r.1@),
    {
        match self.pop_task() {
            None => (Signal::Done, Ghost(0)),
            Some(task) => self.perform(task),
        }
    }

    /// Does one step: takes the topmost task and does it.
    pub fn step(&mut self) -> (r: Signal)
        ensures
            exists|millis: i64| (final(self)@, r@) == step_spec(old(self)@, millis),
            sound(old(self)@) && old(self)@.store.len() < usize::MAX ==> sound(final(self)@),
    {
        let (signal, Ghost(millis)) = self.step_at();
        proof {
            if sound(old(self)@) && old(self)@.store.len() < usize::MAX {
                lemma_step_keeps_sound(old(self)@, millis);
            }
        }
        signal
    }

    /// Steps until a step asks something of the caller, at most `budget`
    /// times; `Continue` says that the budget is spent.
    pub fn run(&mut self, budget: u64) -> (r: Signal)
        ensures
            exists|millis: i64| (final(self)@, r@) == run_spec(old(self)@, budget as nat, millis),
            sound(old(self)@) && old(self)@.store.len() + budget <= usize::MAX ==> sound(
                final(self)@,
            ),
    {
        let mut left = budget;
        let mut signal = Signal::Continue;
        let ghost mut millis = 0i64;
        while left > 0 && matches!(signal, Signal::Continue)
            invariant
                signal@ is Continue ==> forall|t: i64|
                    run_spec(self@, left as nat, t) == #[trigger] run_spec(
                        old(self)@,
                        budget as nat,
                        t,
                    ),
                !(signal@ is Continue) ==> (self@, signal@) == run_spec(
                    old(self)@,
                    budget as nat,
                    millis,
                ),
            decreases left + (if signal@ is Continue { 1nat } else { 0nat }),
        {
            let ghost before = self@;
            let (next, Ghost(t)) = self.step_at();
            proof {
                lemma_clock_only(before, t);
                if !(next@ is Continue) {
                    millis = t;
                }
            }
            signal = next;
            left = left - 1;
        }
        proof {
            if signal@ is Continue {
                assert(run_spec(self@, left as nat, 0i64) == run_spec(
                    old(self)@,
                    budget as nat,
                    0i64,
                ));
                millis = 0i64;
            }
            if sound(old(self)@) && old(self)@.store.len() + budget <= usize::MAX {
                lemma_run_keeps_sound(old(self)@, budget as nat, millis);
            }
        }
        signal
    }
}

/// A step that asks nothing of the caller does not depend on the clock.
pub proof fn lemma_clock_only(m: State, millis: i64)
    ensures
        step_spec(m, millis).1 is Continue ==> forall|t: i64|
            #[trigger] step_spec(m, t) == step_spec(m, millis),
        !(step_spec(m, millis).1 is Continue) ==> forall|t: i64|
            !(#[trigger] step_spec(m, t).1 is Continue),
{
}

impl Callable {
    fn call_at(&self, interpreter: &mut Interpreter, arguments: Vec<Object>) -> (r: (
        Signal,
        Ghost<i64>,
    ))
        ensures
            (final(interpreter)@, r.0@) == called(
                old(interpreter)@,
                self@,
                object_views(arguments@),
                r.1@,
            ),
    {
        match self {
            Callable::Clock => {
                let now = local_timestamp_millis();
                (Signal::Seconds { whole: seconds_of(now) }, Ghost(now))
            },
            Callable::Function(function) => {
                let env = Environment::new(&mut interpreter.store, Some(function.closure));
                let count = if function.params.len() <= arguments.len() {
                    function.params.len()
                } else {
                    arguments.len()
                };
                let ghost base = interpreter.store@;
                let mut i: usize = 0;
                while i < count
                    invariant
                        i <= count,
                        count <= function.params@.len(),
                        count <= arguments@.len(),
                        interpreter@ == (State { store: interpreter@.store, ..old(interpreter)@ }),
                        interpreter.store@ == bind_params(
                            base,
                            env.index,
                            function@.params,
                            object_views(arguments@),
                            i as nat,
                        ),
                    decreases count - i,
                {
                    env.define(
                        &mut interpreter.store,
                        function.params[i].lexeme.clone(),
                        &arguments[i],
                    );
                    i += 1;
                }
                let previous = interpreter.env;
                interpreter.push_task(Task::Resume(previous));
                interpreter.schedule_statements(clone_stmts(&function.body));
                interpreter.env = env;
                (Signal::Continue, Ghost(0))
            },
        }
    }

    /// Calls the callable with arguments.
    pub fn call(&self, interpreter: &mut Interpreter, arguments: Vec<Object>) -> (r: Signal)
        ensures
            exists|millis: i64|
                (final(interpreter)@, r@) == called(
                    old(interpreter)@,
                    self@,
                    object_views(arguments@),
                    millis,
                ),
    {
        let (signal, Ghost(millis)) = self.call_at(interpreter, arguments);
        signal
    }
}

/// The environment that is active once the top-level statement that is
/// running has ended, however it ends: the one that the outermost block or
/// call that is still open was entered from, or the active one if none is
/// open.
pub open spec fn home(m: State) -> Environment {
    unwind_fault(m.tasks, m.env).1
}

proof fn lemma_schedule_is_transparent(tasks: Seq<TaskView>, stmts: Seq<StmtView>, env: Environment)
    ensures
        unwind_fault(schedule(tasks, stmts), env) == unwind_fault(tasks, env),
    decreases stmts.len(),
{
    if stmts.len() > 0 {
        let first = tasks.push(TaskView::Execute(stmts.last()));
        lemma_schedule_is_transparent(first, stmts.drop_last(), env);
        assert(first.drop_last() =~= tasks);
    }
}

proof fn lemma_arguments_are_transparent(tasks: Seq<TaskView>, args: Seq<ExprView>, env: Environment)
    ensures
        unwind_fault(schedule_arguments(tasks, args), env) == unwind_fault(tasks, env),
    decreases args.len(),
{
    if args.len() > 0 {
        let first = tasks.push(TaskView::Evaluate(args.last()));
        lemma_arguments_are_transparent(first, args.drop_last(), env);
        assert(first.drop_last() =~= tasks);
    }
}

proof fn lemma_return_goes_home(tasks: Seq<TaskView>, env: Environment)
    ensures
        ({
            let (rest, back, caught) = unwind_return(tasks, env);
            if caught {
                unwind_fault(rest, back) == unwind_fault(tasks, env)
            } else {
                (rest, back) == unwind_fault(tasks, env)
            }
        }),
    decreases tasks.len(),
{
    if tasks.len() > 0 {
        match tasks.last() {
            TaskView::Statement => {},
            TaskView::Resume(e) => {},
            TaskView::Leave(e) => {
                lemma_return_goes_home(tasks.drop_last(), e);
            },
            _ => {
                lemma_return_goes_home(tasks.drop_last(), env);
            },
        }
    }
}

proof fn lemma_push_is_transparent(tasks: Seq<TaskView>, t: TaskView, env: Environment)
    requires
        !(t is Statement),
        !(t is Leave),
        !(t is Resume),
    ensures
        unwind_fault(tasks.push(t), env) == unwind_fault(tasks, env),
{
    assert(tasks.push(t).drop_last() =~= tasks);
}

proof fn lemma_restore_goes_home(tasks: Seq<TaskView>, saved: Environment, env: Environment)
    ensures
        unwind_fault(tasks.push(TaskView::Leave(saved)), env) == unwind_fault(tasks, saved),
        unwind_fault(tasks.push(TaskView::Resume(saved)), env) == unwind_fault(tasks, saved),
{
    assert(tasks.push(TaskView::Leave(saved)).drop_last() =~= tasks);
    assert(tasks.push(TaskView::Resume(saved)).drop_last() =~= tasks);
}

/// Environment discipline. While a top-level statement runs, every step
/// keeps [`home`]: a block or a call that is entered schedules the way
/// back to the environment it was entered from, and a block or a call that
/// ends, whether at its end, by a `return` or by an error, takes that way.
/// A step that ends the statement with an error leaves `home` active.
pub proof fn lemma_environment_discipline(m: State, millis: i64)
    requires
        m.tasks.len() > 0,
        !(m.tasks.last() is Statement),
    ensures
        ({
            let (next, signal) = step_spec(m, millis);
            if signal is Fault {
                next.env == home(m)
            } else {
                home(next) == home(m)
            }
        }),
{
    let task = m.tasks.last();
    let rest = State { tasks: m.tasks.drop_last(), ..m };
    let (next, signal) = performed(rest, task, millis);
    assert(m.tasks =~= rest.tasks.push(task));
    match task {
        TaskView::Leave(e) => {
            lemma_restore_goes_home(rest.tasks, e, m.env);
        },
        TaskView::Resume(e) => {
            lemma_restore_goes_home(rest.tasks, e, m.env);
        },
        TaskView::Return => {
            lemma_push_is_transparent(rest.tasks, task, m.env);
            lemma_return_goes_home(rest.tasks, m.env);
        },
        TaskView::Execute(s) => {
            lemma_push_is_transparent(rest.tasks, task, m.env);
            match s {
                StmtView::Block { stmts } => {
                    lemma_schedule_is_transparent(
                        rest.tasks.push(TaskView::Leave(m.env)),
                        stmts,
                        fresh(m.store),
                    );
                    lemma_restore_goes_home(rest.tasks, m.env, fresh(m.store));
                },
                StmtView::Expression { expression } => {
                    lemma_push_is_transparent(rest.tasks, TaskView::Discard, m.env);
                    lemma_push_is_transparent(
                        rest.tasks.push(TaskView::Discard),
                        TaskView::Evaluate(expression),
                        m.env,
                    );
                },
                StmtView::Print { expression } => {
                    lemma_push_is_transparent(rest.tasks, TaskView::Print, m.env);
                    lemma_push_is_transparent(
                        rest.tasks.push(TaskView::Print),
                        TaskView::Evaluate(expression),
                        m.env,
                    );
                },
                StmtView::Var { name, expression } => {
                    lemma_push_is_transparent(rest.tasks, TaskView::Define(name), m.env);
                    lemma_push_is_transparent(
                        rest.tasks.push(TaskView::Define(name)),
                        TaskView::Evaluate(expression),
                        m.env,
                    );
                },
                StmtView::Return { keyword, value } => {
                    lemma_push_is_transparent(rest.tasks, TaskView::Return, m.env);
                    lemma_push_is_transparent(
                        rest.tasks.push(TaskView::Return),
                        TaskView::Evaluate(value),
                        m.env,
                    );
                },
                StmtView::Function { name, params, body } => {},
                StmtView::If { condition, then_branch, else_branch } => {
                    let branch = TaskView::Branch(
                        *then_branch,
                        match else_branch {
                            Some(e) => Some(*e),
                            None => None,
                        },
                    );
                    lemma_push_is_transparent(rest.tasks, branch, m.env);
                    lemma_push_is_transparent(
                        rest.tasks.push(branch),
                        TaskView::Evaluate(condition),
                        m.env,
                    );
                },
                StmtView::While { condition, body } => {
                    lemma_push_is_transparent(rest.tasks, TaskView::Loop(condition, *body), m.env);
                    lemma_push_is_transparent(
                        rest.tasks.push(TaskView::Loop(condition, *body)),
                        TaskView::Evaluate(condition),
                        m.env,
                    );
                },
            }
        },
        TaskView::Evaluate(e) => {
            lemma_push_is_transparent(rest.tasks, task, m.env);
            match e {
                ExprView::Literal { value } => {},
                ExprView::Variable { id, name } => {},
                ExprView::Grouping { expression } => {
                    lemma_push_is_transparent(rest.tasks, TaskView::Evaluate(*expression), m.env);
                },
                ExprView::Unary { operator, right } => {
                    lemma_push_is_transparent(rest.tasks, TaskView::Unary(operator), m.env);
                    lemma_push_is_transparent(
                        rest.tasks.push(TaskView::Unary(operator)),
                        TaskView::Evaluate(*right),
                        m.env,
                    );
                },
                ExprView::Binary { left, operator, right } => {
                    let a = rest.tasks.push(TaskView::Binary(operator));
                    let b = a.push(TaskView::Evaluate(*right));
                    lemma_push_is_transparent(rest.tasks, TaskView::Binary(operator), m.env);
                    lemma_push_is_transparent(a, TaskView::Evaluate(*right), m.env);
                    lemma_push_is_transparent(b, TaskView::Evaluate(*left), m.env);
                },
                ExprView::Logic { left, operator, right } => {
                    let a = rest.tasks.push(TaskView::Logic(operator, *right));
                    lemma_push_is_transparent(rest.tasks, TaskView::Logic(operator, *right), m.env);
                    lemma_push_is_transparent(a, TaskView::Evaluate(*left), m.env);
                },
                ExprView::Assign { id, name, value } => {
                    let a = rest.tasks.push(TaskView::Assign(id, name));
                    lemma_push_is_transparent(rest.tasks, TaskView::Assign(id, name), m.env);
                    lemma_push_is_transparent(a, TaskView::Evaluate(*value), m.env);
                },
                ExprView::Call { callee, paren, arguments } => {
                    let invoke = TaskView::Invoke(paren, arguments.len() as usize);
                    let a = rest.tasks.push(invoke);
                    lemma_push_is_transparent(rest.tasks, invoke, m.env);
                    lemma_arguments_are_transparent(a, arguments, m.env);
                    lemma_push_is_transparent(
                        schedule_arguments(a, arguments),
                        TaskView::Evaluate(*callee),
                        m.env,
                    );
                },
            }
        },
        TaskView::Invoke(paren, count) => {
            lemma_push_is_transparent(rest.tasks, task, m.env);
            let k = shorter(count as nat, rest.values.len());
            let below = State {
                values: rest.values.subrange(0, rest.values.len() - k),
                ..rest
            };
            match top_value(below) {
                ObjectView::Callable(CallableView::Function(f)) => {
                    if count == f.params.len() {
                        lemma_schedule_is_transparent(
                            rest.tasks.push(TaskView::Resume(m.env)),
                            f.body,
                            fresh(m.store),
                        );
                        lemma_restore_goes_home(rest.tasks, m.env, fresh(m.store));
                    }
                },
                _ => {},
            }
        },
        TaskView::Logic(operator, right) => {
            lemma_push_is_transparent(rest.tasks, task, m.env);
            lemma_push_is_transparent(rest.tasks, TaskView::Evaluate(right), m.env);
        },
        TaskView::Branch(then_branch, else_branch) => {
            lemma_push_is_transparent(rest.tasks, task, m.env);
            lemma_push_is_transparent(rest.tasks, TaskView::Execute(then_branch), m.env);
            match else_branch {
                Some(e) => {
                    lemma_push_is_transparent(rest.tasks, TaskView::Execute(e), m.env);
                },
                None => {},
            }
        },
        TaskView::Loop(condition, body) => {
            lemma_push_is_transparent(rest.tasks, task, m.env);
            let again = TaskView::Execute(StmtView::While { condition, body: Box::new(body) });
            lemma_push_is_transparent(rest.tasks, again, m.env);
            lemma_push_is_transparent(rest.tasks.push(again), TaskView::Execute(body), m.env);
        },
        _ => {
            lemma_push_is_transparent(rest.tasks, task, m.env);
        },
    }
}

/// Short-circuit. The right operand of `or` is evaluated if and only if
/// the left operand is falsy, that of `and` if and only if the left operand
/// is truthy. Where it is not evaluated, the value of the left operand is
/// the result, unchanged.
pub proof fn lemma_short_circuit(m: State, operator: TokenView, right: ExprView, millis: i64)
    requires
        m.values.len() > 0,
    ensures
        ({
            let left = m.values.last();
            let (next, signal) = performed(m, TaskView::Logic(operator, right), millis);
            let skips = if operator.token_type == TokenType::OR {
                truthy(left)
            } else {
                !truthy(left)
            };
            &&& signal is Continue
            &&& skips ==> next.tasks == m.tasks && next.values == m.values
            &&& !skips ==> next.tasks == m.tasks.push(TaskView::Evaluate(right)) && next.values
                == m.values.drop_last()
        }),
{
    assert(m.values.drop_last().push(m.values.last()) =~= m.values);
}

proof fn lemma_bind_keeps_enclosing(
    store: Seq<FrameView>,
    env: usize,
    params: Seq<TokenView>,
    args: Seq<ObjectView>,
    count: nat,
)
    ensures
        bind_params(store, env, params, args, count).len() == store.len(),
        forall|i: int|
            0 <= i < store.len() ==> (#[trigger] bind_params(
                store,
                env,
                params,
                args,
                count,
            )[i]).enclosing == store[i].enclosing,
    decreases count,
{
    if !(count == 0 || count > params.len() || count > args.len()) {
        lemma_bind_keeps_enclosing(store, env, params, args, (count - 1) as nat);
    }
}

/// Lexical scope. A call of a function runs in a new environment that is
/// enclosed by the environment in which the function was declared,
/// whatever environment the caller is in; the caller's environment is the
/// one to go back to.
pub proof fn lemma_call_is_lexical(
    m: State,
    f: FunctionView,
    args: Seq<ObjectView>,
    millis: i64,
)
    requires
        m.store.len() < usize::MAX,
    ensures
        ({
            let (next, signal) = called(m, CallableView::Function(f), args, millis);
            &&& signal is Continue
            &&& next.env.index == m.store.len()
            &&& next.store.len() == m.store.len() + 1
            &&& next.store[next.env.index as int].enclosing == Some(f.closure.index)
            &&& forall|i: int|
                0 <= i < m.store.len() ==> (#[trigger] next.store[i]).enclosing
                    == m.store[i].enclosing
            &&& next.tasks == schedule(m.tasks.push(TaskView::Resume(m.env)), f.body)
        }),
{
    let grown = extended(m.store, f.closure);
    lemma_bind_keeps_enclosing(
        grown,
        fresh(m.store).index,
        f.params,
        args,
        shorter(f.params.len(), args.len()),
    );
}

/// Arity. A call with a number of arguments other than the callee's arity
/// ends the statement with the error "Expected N arguments but got M." at
/// the closing parenthesis, and nothing is called.
pub proof fn lemma_arity_is_enforced(m: State, paren: TokenView, count: usize, millis: i64)
    requires
        m.values.len() > count,
        m.values[m.values.len() - count - 1] is Callable,
        arity_of(m.values[m.values.len() - count - 1]->Callable_0) != count,
    ensures
        ({
            let callee = m.values[m.values.len() - count - 1]->Callable_0;
            let (next, signal) = invoked(m, paren, count, millis);
            &&& signal == SignalView::Fault(
                ErrorView::RuntimeError(
                    paren,
                    "Expected "@ + decimal(arity_of(callee)) + " arguments but got "@ + decimal(
                        count as nat,
                    ) + "."@,
                ),
            )
            &&& next.env == home(m)
        }),
{
    let k = shorter(count as nat, m.values.len());
    let below = m.values.subrange(0, m.values.len() - k);
    assert(below.last() == m.values[m.values.len() - count - 1]);
}

} // verus!
