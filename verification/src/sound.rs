//! What holds of every state that the evaluator reaches: no reference to
//! an environment outlives the environment.

use vstd::prelude::*;
use crate::callable::{CallableView, FunctionView};
use crate::environment::{bound, marked, own, released, Environment, FrameView};
use crate::expr::ExprView;
use crate::error::ErrorView;
use crate::interpreter::{
    applied, assigned, assignment_target, binary_outcome, bind_params, block_entered, called,
    evaluated, executed, extended, failed, fault_store, fresh, initial_state, invoked, left,
    returned, return_store, run_spec, schedule, schedule_arguments, schedule_program, shorter,
    step_spec, top_value, unary_outcome, unwind_fault, unwind_return, variable_value,
    with_task, with_value, without_value, OutcomeView, State, TaskView,
};
use crate::object::ObjectView;
use crate::stmt::StmtView;
use crate::token::TokenView;

verus! {

/// Whether a value refers to an environment that exists: the environment
/// in which a function was declared is in the store, and is marked as held
/// by a function.
pub open spec fn value_ok(store: Seq<FrameView>, v: ObjectView) -> bool {
    match v {
        ObjectView::Callable(CallableView::Function(f)) => f.closure.index < store.len()
            && store[f.closure.index as int].captured,
        _ => true,
    }
}

/// Whether an environment of the store is enclosed by an older one, and
/// binds its names to values that refer to environments that exist.
pub open spec fn frame_ok(store: Seq<FrameView>, i: int) -> bool {
    &&& store[i].enclosing matches Some(p) ==> p < i
    &&& forall|name: Seq<char>| #[trigger]
        store[i].values.contains_key(name) ==> value_ok(store, store[i].values[name])
}

/// Whether every environment of the store is in order.
pub open spec fn store_ok(store: Seq<FrameView>) -> bool {
    forall|i: int| 0 <= i < store.len() ==> #[trigger] frame_ok(store, i)
}

/// Whether every value of a stack refers to environments that exist.
pub open spec fn values_ok(store: Seq<FrameView>, values: Seq<ObjectView>) -> bool {
    forall|j: int| 0 <= j < values.len() ==> value_ok(store, #[trigger] values[j])
}

/// Whether every way back that the tasks hold leads to an environment
/// older than the one it is taken from.
pub open spec fn ways_ok(tasks: Seq<TaskView>, env: Environment) -> bool
    decreases tasks.len(),
{
    if tasks.len() == 0 {
        true
    } else {
        match tasks.last() {
            TaskView::Leave(e) => e.index < env.index && ways_ok(tasks.drop_last(), e),
            TaskView::Resume(e) => e.index < env.index && ways_ok(tasks.drop_last(), e),
            _ => ways_ok(tasks.drop_last(), env),
        }
    }
}

/// Whether a state is in order: the active environment exists, the ways
/// back lead to older environments, and no value, on the stack or bound in
/// an environment, refers to an environment that does not exist.
pub open spec fn sound(m: State) -> bool {
    &&& m.env.index < m.store.len()
    &&& ways_ok(m.tasks, m.env)
    &&& store_ok(m.store)
    &&& values_ok(m.store, m.values)
}

/// Whether a store has all the environments of another, with what they
/// enclose, and has marked as held what the other has.
pub open spec fn grown(before: Seq<FrameView>, after: Seq<FrameView>) -> bool {
    &&& before.len() <= after.len()
    &&& forall|i: int|
        0 <= i < before.len() ==> (#[trigger] after[i]).enclosing == before[i].enclosing && (
        before[i].captured ==> after[i].captured)
}

proof fn lemma_grown_keeps_value(before: Seq<FrameView>, after: Seq<FrameView>, v: ObjectView)
    requires
        grown(before, after),
        value_ok(before, v),
    ensures
        value_ok(after, v),
{
}

proof fn lemma_grown_keeps_values(
    before: Seq<FrameView>,
    after: Seq<FrameView>,
    values: Seq<ObjectView>,
)
    requires
        grown(before, after),
        values_ok(before, values),
    ensures
        values_ok(after, values),
{
    assert forall|j: int| 0 <= j < values.len() implies value_ok(after, #[trigger] values[j]) by {
        lemma_grown_keeps_value(before, after, values[j]);
    }
}

proof fn lemma_bound_is_ok(store: Seq<FrameView>, env: usize, name: Seq<char>, v: ObjectView)
    requires
        store_ok(store),
        value_ok(store, v),
    ensures
        store_ok(bound(store, env, name, v)),
        grown(store, bound(store, env, name, v)),
        bound(store, env, name, v).len() == store.len(),
{
    let after = bound(store, env, name, v);
    assert forall|i: int| 0 <= i < after.len() implies #[trigger] frame_ok(after, i) by {
        assert(frame_ok(store, i));
        assert forall|n: Seq<char>| #[trigger] after[i].values.contains_key(n) implies value_ok(
            after,
            after[i].values[n],
        ) by {
            if i == env && n == name {
                lemma_grown_keeps_value(store, after, v);
            } else {
                assert(store[i].values.contains_key(n));
                lemma_grown_keeps_value(store, after, store[i].values[n]);
            }
        }
    }
}

proof fn lemma_marked_is_ok(store: Seq<FrameView>, env: usize)
    requires
        store_ok(store),
    ensures
        store_ok(marked(store, env)),
        grown(store, marked(store, env)),
        marked(store, env).len() == store.len(),
        env < store.len() ==> marked(store, env)[env as int].captured,
{
    let after = marked(store, env);
    assert forall|i: int| 0 <= i < after.len() implies #[trigger] frame_ok(after, i) by {
        assert(frame_ok(store, i));
        assert forall|n: Seq<char>| #[trigger] after[i].values.contains_key(n) implies value_ok(
            after,
            after[i].values[n],
        ) by {
            assert(store[i].values.contains_key(n));
            lemma_grown_keeps_value(store, after, store[i].values[n]);
        }
    }
}

proof fn lemma_extended_is_ok(store: Seq<FrameView>, enclosing: Environment)
    requires
        store_ok(store),
        enclosing.index < store.len(),
    ensures
        store_ok(extended(store, enclosing)),
        grown(store, extended(store, enclosing)),
        extended(store, enclosing).len() == store.len() + 1,
{
    let after = extended(store, enclosing);
    assert forall|i: int| 0 <= i < after.len() implies #[trigger] frame_ok(after, i) by {
        if i < store.len() {
            assert(frame_ok(store, i));
            assert forall|n: Seq<char>| #[trigger]
                after[i].values.contains_key(n) implies value_ok(after, after[i].values[n]) by {
                assert(store[i].values.contains_key(n));
                lemma_grown_keeps_value(store, after, store[i].values[n]);
            }
        }
    }
}

/// Whether a store has lost nothing that a value may refer to.
pub open spec fn kept(before: Seq<FrameView>, after: Seq<FrameView>) -> bool {
    forall|v: ObjectView| #[trigger] value_ok(before, v) ==> value_ok(after, v)
}

proof fn lemma_released_is_ok(store: Seq<FrameView>, env: usize, saved: usize)
    requires
        store_ok(store),
        saved < env < store.len(),
    ensures
        store_ok(released(store, env, saved)),
        kept(store, released(store, env, saved)),
        saved < released(store, env, saved).len() <= store.len(),
{
    let after = released(store, env, saved);
    assert forall|v: ObjectView| #[trigger] value_ok(store, v) implies value_ok(after, v) by {}
    assert forall|i: int| 0 <= i < after.len() implies #[trigger] frame_ok(after, i) by {
        assert(frame_ok(store, i));
        assert forall|n: Seq<char>| #[trigger] after[i].values.contains_key(n) implies value_ok(
            after,
            after[i].values[n],
        ) by {
            assert(store[i].values.contains_key(n));
            assert(value_ok(store, store[i].values[n]));
        }
    }
}

proof fn lemma_ways_push(tasks: Seq<TaskView>, t: TaskView, env: Environment)
    requires
        !(t is Leave),
        !(t is Resume),
    ensures
        ways_ok(tasks.push(t), env) == ways_ok(tasks, env),
{
    assert(tasks.push(t).drop_last() =~= tasks);
}

proof fn lemma_ways_enter(tasks: Seq<TaskView>, saved: Environment, env: Environment)
    ensures
        ways_ok(tasks.push(TaskView::Leave(saved)), env) == (saved.index < env.index && ways_ok(
            tasks,
            saved,
        )),
        ways_ok(tasks.push(TaskView::Resume(saved)), env) == (saved.index < env.index && ways_ok(
            tasks,
            saved,
        )),
{
    assert(tasks.push(TaskView::Leave(saved)).drop_last() =~= tasks);
    assert(tasks.push(TaskView::Resume(saved)).drop_last() =~= tasks);
}

proof fn lemma_ways_schedule(tasks: Seq<TaskView>, stmts: Seq<StmtView>, env: Environment)
    ensures
        ways_ok(schedule(tasks, stmts), env) == ways_ok(tasks, env),
    decreases stmts.len(),
{
    if stmts.len() > 0 {
        let first = tasks.push(TaskView::Execute(stmts.last()));
        lemma_ways_schedule(first, stmts.drop_last(), env);
        lemma_ways_push(tasks, TaskView::Execute(stmts.last()), env);
    }
}

proof fn lemma_ways_arguments(tasks: Seq<TaskView>, args: Seq<ExprView>, env: Environment)
    ensures
        ways_ok(schedule_arguments(tasks, args), env) == ways_ok(tasks, env),
    decreases args.len(),
{
    if args.len() > 0 {
        let first = tasks.push(TaskView::Evaluate(args.last()));
        lemma_ways_arguments(first, args.drop_last(), env);
        lemma_ways_push(tasks, TaskView::Evaluate(args.last()), env);
    }
}

proof fn lemma_ways_program(tasks: Seq<TaskView>, stmts: Seq<StmtView>, env: Environment)
    ensures
        ways_ok(schedule_program(tasks, stmts), env) == ways_ok(tasks, env),
    decreases stmts.len(),
{
    if stmts.len() > 0 {
        let marked = tasks.push(TaskView::Statement);
        let first = marked.push(TaskView::Execute(stmts.last()));
        lemma_ways_program(first, stmts.drop_last(), env);
        lemma_ways_push(marked, TaskView::Execute(stmts.last()), env);
        lemma_ways_push(tasks, TaskView::Statement, env);
    }
}

proof fn lemma_fault_is_sound(tasks: Seq<TaskView>, env: Environment, store: Seq<FrameView>)
    requires
        ways_ok(tasks, env),
        env.index < store.len(),
        store_ok(store),
    ensures
        ({
            let (rest, back) = unwind_fault(tasks, env);
            let after = fault_store(tasks, env, store);
            &&& ways_ok(rest, back)
            &&& back.index < after.len() <= store.len()
            &&& store_ok(after)
        }),
    decreases tasks.len(),
{
    if tasks.len() > 0 {
        match tasks.last() {
            TaskView::Statement => {},
            TaskView::Leave(e) => {
                lemma_released_is_ok(store, env.index, e.index);
                lemma_fault_is_sound(tasks.drop_last(), e, released(store, env.index, e.index));
            },
            TaskView::Resume(e) => {
                lemma_released_is_ok(store, env.index, e.index);
                lemma_fault_is_sound(tasks.drop_last(), e, released(store, env.index, e.index));
            },
            _ => {
                lemma_fault_is_sound(tasks.drop_last(), env, store);
            },
        }
    }
}

proof fn lemma_return_is_sound(tasks: Seq<TaskView>, env: Environment, store: Seq<FrameView>)
    requires
        ways_ok(tasks, env),
        env.index < store.len(),
        store_ok(store),
    ensures
        ({
            let (rest, back, caught) = unwind_return(tasks, env);
            let after = return_store(tasks, env, store);
            &&& ways_ok(rest, back)
            &&& back.index < after.len() <= store.len()
            &&& store_ok(after)
            &&& kept(store, after)
        }),
    decreases tasks.len(),
{
    if tasks.len() > 0 {
        match tasks.last() {
            TaskView::Statement => {},
            TaskView::Resume(e) => {
                lemma_released_is_ok(store, env.index, e.index);
            },
            TaskView::Leave(e) => {
                let next = released(store, env.index, e.index);
                lemma_released_is_ok(store, env.index, e.index);
                lemma_return_is_sound(tasks.drop_last(), e, next);
                let after = return_store(tasks.drop_last(), e, next);
                assert forall|v: ObjectView| #[trigger] value_ok(store, v) implies value_ok(
                    after,
                    v,
                ) by {
                    assert(value_ok(next, v));
                }
            },
            _ => {
                lemma_return_is_sound(tasks.drop_last(), env, store);
            },
        }
    }
}

proof fn lemma_bind_params_is_ok(
    store: Seq<FrameView>,
    env: usize,
    params: Seq<TokenView>,
    args: Seq<ObjectView>,
    count: nat,
)
    requires
        store_ok(store),
        values_ok(store, args),
    ensures
        store_ok(bind_params(store, env, params, args, count)),
        grown(store, bind_params(store, env, params, args, count)),
        bind_params(store, env, params, args, count).len() == store.len(),
    decreases count,
{
    if !(count == 0 || count > params.len() || count > args.len()) {
        let before = bind_params(store, env, params, args, (count - 1) as nat);
        lemma_bind_params_is_ok(store, env, params, args, (count - 1) as nat);
        lemma_grown_keeps_value(store, before, args[count - 1]);
        lemma_bound_is_ok(before, env, params[count - 1].lexeme, args[count - 1]);
    }
}

/// A new interpreter is in order.
pub proof fn lemma_initial_state_is_sound()
    ensures
        sound(initial_state()),
{
    let m = initial_state();
    assert(frame_ok(m.store, 0));
}

/// A program that is taken up leaves the state in order.
pub proof fn lemma_interpret_keeps_sound(m: State, stmts: Seq<StmtView>)
    requires
        sound(m),
    ensures
        sound(State { tasks: schedule_program(m.tasks, stmts), ..m }),
{
    lemma_ways_program(m.tasks, stmts, m.env);
}

/// A value that refers to environments that exist may be supplied.
pub proof fn lemma_supply_keeps_sound(m: State, v: ObjectView)
    requires
        sound(m),
        value_ok(m.store, v),
    ensures
        sound(State { values: m.values.push(v), ..m }),
{
}

proof fn lemma_failed_is_sound(m: State, error: ErrorView)
    requires
        sound(m),
    ensures
        sound(failed(m, error).0),
        failed(m, error).0.store.len() <= m.store.len(),
{
    lemma_fault_is_sound(m.tasks, m.env, m.store);
}

proof fn lemma_returned_is_sound(m: State)
    requires
        sound(m),
    ensures
        sound(returned(m).0),
        returned(m).0.store.len() <= m.store.len(),
{
    let v = top_value(m);
    let rest = without_value(m);
    lemma_return_is_sound(rest.tasks, rest.env, rest.store);
    let after = return_store(rest.tasks, rest.env, rest.store);
    assert(value_ok(m.store, v));
    assert(value_ok(after, v));
    assert forall|j: int| 0 <= j < rest.values.len() implies value_ok(
        after,
        #[trigger] rest.values[j],
    ) by {
        assert(value_ok(m.store, rest.values[j]));
    }
}

proof fn lemma_task_is_sound(m: State, t: TaskView)
    requires
        sound(m),
        !(t is Leave),
        !(t is Resume),
    ensures
        sound(with_task(m, t)),
{
    lemma_ways_push(m.tasks, t, m.env);
}

proof fn lemma_value_is_sound(m: State, v: ObjectView)
    requires
        sound(m),
        value_ok(m.store, v),
    ensures
        sound(with_value(m, v)),
{
}

proof fn lemma_top_is_ok(m: State)
    requires
        sound(m),
    ensures
        value_ok(m.store, top_value(m)),
        sound(without_value(m)),
{
}

proof fn lemma_variable_is_ok(m: State, id: usize, name: TokenView)
    requires
        sound(m),
    ensures
        variable_value(m, id, name) matches Some(v) ==> value_ok(m.store, v),
{
    match variable_value(m, id, name) {
        Some(v) => {
            let h = choose|h: usize| own(m.store, h, name.lexeme) == Some(v);
            assert(frame_ok(m.store, h as int));
        },
        None => {},
    }
}

proof fn lemma_applied_is_sound(m: State, outcome: OutcomeView)
    requires
        sound(m),
        outcome matches OutcomeView::Value(v) ==> value_ok(m.store, v),
    ensures
        sound(applied(m, outcome).0),
        applied(m, outcome).0.store.len() <= m.store.len(),
{
    match outcome {
        OutcomeView::Failure(e) => {
            lemma_failed_is_sound(m, e);
        },
        _ => {},
    }
}

proof fn lemma_assigned_is_sound(m: State, id: usize, name: TokenView)
    requires
        sound(m),
    ensures
        sound(assigned(m, id, name).0),
        assigned(m, id, name).0.store.len() <= m.store.len(),
{
    let v = top_value(m);
    let rest = without_value(m);
    match assignment_target(m, id, name) {
        Some(target) => {
            let store = bound(m.store, target, name.lexeme, v);
            lemma_bound_is_ok(m.store, target, name.lexeme, v);
            lemma_grown_keeps_values(m.store, store, rest.values);
            lemma_grown_keeps_value(m.store, store, v);
        },
        None => {
            lemma_failed_is_sound(rest, crate::environment::undefined_variable(name));
        },
    }
}

proof fn lemma_entered_is_sound(m: State, stmts: Seq<StmtView>)
    requires
        sound(m),
        m.store.len() < usize::MAX,
    ensures
        sound(block_entered(State { store: extended(m.store, m.env), ..m }, stmts, fresh(m.store))),
{
    let grown_store = extended(m.store, m.env);
    lemma_extended_is_ok(m.store, m.env);
    lemma_grown_keeps_values(m.store, grown_store, m.values);
    lemma_ways_enter(m.tasks, m.env, fresh(m.store));
    lemma_ways_schedule(m.tasks.push(TaskView::Leave(m.env)), stmts, fresh(m.store));
}

proof fn lemma_called_is_sound(
    m: State,
    callee: CallableView,
    args: Seq<ObjectView>,
    millis: i64,
)
    requires
        sound(m),
        m.store.len() < usize::MAX,
        value_ok(m.store, ObjectView::Callable(callee)),
        values_ok(m.store, args),
    ensures
        sound(called(m, callee, args, millis).0),
        called(m, callee, args, millis).0.store.len() <= m.store.len() + 1,
{
    match callee {
        CallableView::Clock => {},
        CallableView::Function(f) => {
            let env = fresh(m.store);
            let grown_store = extended(m.store, f.closure);
            lemma_extended_is_ok(m.store, f.closure);
            lemma_grown_keeps_values(m.store, grown_store, args);
            let count = shorter(f.params.len(), args.len());
            lemma_bind_params_is_ok(grown_store, env.index, f.params, args, count);
            let store = bind_params(grown_store, env.index, f.params, args, count);
            lemma_grown_keeps_values(m.store, grown_store, m.values);
            lemma_grown_keeps_values(grown_store, store, m.values);
            lemma_ways_enter(m.tasks, m.env, env);
            lemma_ways_schedule(m.tasks.push(TaskView::Resume(m.env)), f.body, env);
        },
    }
}

proof fn lemma_invoked_is_sound(m: State, paren: TokenView, count: usize, millis: i64)
    requires
        sound(m),
        m.store.len() < usize::MAX,
    ensures
        sound(invoked(m, paren, count, millis).0),
        invoked(m, paren, count, millis).0.store.len() <= m.store.len() + 1,
{
    let k = shorter(count as nat, m.values.len());
    let args = m.values.subrange(m.values.len() - k, m.values.len() as int);
    let below = State { values: m.values.subrange(0, m.values.len() - k), ..m };
    assert(values_ok(m.store, args)) by {
        assert forall|j: int| 0 <= j < args.len() implies value_ok(m.store, #[trigger] args[j]) by {
            assert(args[j] == m.values[m.values.len() - k + j]);
        }
    }
    assert(sound(below)) by {
        assert forall|j: int| 0 <= j < below.values.len() implies value_ok(
            m.store,
            #[trigger] below.values[j],
        ) by {
            assert(below.values[j] == m.values[j]);
        }
    }
    let callee = top_value(below);
    let rest = without_value(below);
    lemma_top_is_ok(below);
    match callee {
        ObjectView::Callable(c) => {
            if count != crate::callable::arity_of(c) {
                lemma_failed_is_sound(
                    rest,
                    crate::interpreter::runtime_error(
                        paren,
                        crate::interpreter::arity_message(
                            crate::callable::arity_of(c),
                            count as nat,
                        ),
                    ),
                );
            } else {
                lemma_called_is_sound(rest, c, args, millis);
            }
        },
        _ => {
            lemma_failed_is_sound(
                rest,
                crate::interpreter::runtime_error(paren, "Can only call functions and classes."@),
            );
        },
    }
}

proof fn lemma_evaluated_is_sound(m: State, e: ExprView)
    requires
        sound(m),
    ensures
        sound(evaluated(m, e).0),
        evaluated(m, e).0.store.len() <= m.store.len(),
{
    match e {
        ExprView::Literal { value } => {},
        ExprView::Grouping { expression } => {
            lemma_task_is_sound(m, TaskView::Evaluate(*expression));
        },
        ExprView::Unary { operator, right } => {
            lemma_task_is_sound(m, TaskView::Unary(operator));
            lemma_task_is_sound(with_task(m, TaskView::Unary(operator)), TaskView::Evaluate(*right));
        },
        ExprView::Binary { left, operator, right } => {
            let a = with_task(m, TaskView::Binary(operator));
            let b = with_task(a, TaskView::Evaluate(*right));
            lemma_task_is_sound(m, TaskView::Binary(operator));
            lemma_task_is_sound(a, TaskView::Evaluate(*right));
            lemma_task_is_sound(b, TaskView::Evaluate(*left));
        },
        ExprView::Logic { left, operator, right } => {
            let a = with_task(m, TaskView::Logic(operator, *right));
            lemma_task_is_sound(m, TaskView::Logic(operator, *right));
            lemma_task_is_sound(a, TaskView::Evaluate(*left));
        },
        ExprView::Assign { id, name, value } => {
            let a = with_task(m, TaskView::Assign(id, name));
            lemma_task_is_sound(m, TaskView::Assign(id, name));
            lemma_task_is_sound(a, TaskView::Evaluate(*value));
        },
        ExprView::Call { callee, paren, arguments } => {
            let invoke = TaskView::Invoke(paren, arguments.len() as usize);
            lemma_ways_push(m.tasks, invoke, m.env);
            lemma_ways_arguments(m.tasks.push(invoke), arguments, m.env);
            let a = State { tasks: schedule_arguments(m.tasks.push(invoke), arguments), ..m };
            lemma_task_is_sound(a, TaskView::Evaluate(*callee));
        },
        ExprView::Variable { id, name } => {
            lemma_variable_is_ok(m, id, name);
            match variable_value(m, id, name) {
                Some(v) => {},
                None => {
                    lemma_failed_is_sound(m, crate::environment::undefined_variable(name));
                },
            }
        },
    }
}

proof fn lemma_executed_is_sound(m: State, s: StmtView)
    requires
        sound(m),
        m.store.len() < usize::MAX,
    ensures
        sound(executed(m, s).0),
        executed(m, s).0.store.len() <= m.store.len() + 1,
{
    match s {
        StmtView::Expression { expression } => {
            lemma_task_is_sound(m, TaskView::Discard);
            lemma_task_is_sound(with_task(m, TaskView::Discard), TaskView::Evaluate(expression));
        },
        StmtView::Print { expression } => {
            lemma_task_is_sound(m, TaskView::Print);
            lemma_task_is_sound(with_task(m, TaskView::Print), TaskView::Evaluate(expression));
        },
        StmtView::Var { name, expression } => {
            lemma_task_is_sound(m, TaskView::Define(name));
            lemma_task_is_sound(with_task(m, TaskView::Define(name)), TaskView::Evaluate(expression));
        },
        StmtView::Return { keyword, value } => {
            lemma_task_is_sound(m, TaskView::Return);
            lemma_task_is_sound(with_task(m, TaskView::Return), TaskView::Evaluate(value));
        },
        StmtView::Block { stmts } => {
            lemma_entered_is_sound(m, stmts);
        },
        StmtView::Function { name, params, body } => {
            let held = marked(m.store, m.env.index);
            lemma_marked_is_ok(m.store, m.env.index);
            let function = ObjectView::Callable(
                CallableView::Function(FunctionView { name, params, body, closure: m.env }),
            );
            lemma_bound_is_ok(held, m.env.index, name.lexeme, function);
            let store = bound(held, m.env.index, name.lexeme, function);
            lemma_grown_keeps_values(m.store, held, m.values);
            lemma_grown_keeps_values(held, store, m.values);
        },
        StmtView::If { condition, then_branch, else_branch } => {
            let branch = TaskView::Branch(
                *then_branch,
                match else_branch {
                    Some(e) => Some(*e),
                    None => None,
                },
            );
            lemma_task_is_sound(m, branch);
            lemma_task_is_sound(with_task(m, branch), TaskView::Evaluate(condition));
        },
        StmtView::While { condition, body } => {
            lemma_task_is_sound(m, TaskView::Loop(condition, *body));
            lemma_task_is_sound(
                with_task(m, TaskView::Loop(condition, *body)),
                TaskView::Evaluate(condition),
            );
        },
    }
}

/// No reference outlives its environment. A step from a state that is in
/// order leads to a state that is in order: the active environment and
/// every environment that a way back leads to exist, and so does the
/// environment of every function that is a value on the stack or bound to
/// a name. An environment is destroyed only when nothing refers to it.
pub proof fn lemma_step_keeps_sound(m: State, millis: i64)
    requires
        sound(m),
        m.store.len() < usize::MAX,
    ensures
        sound(step_spec(m, millis).0),
        step_spec(m, millis).0.store.len() <= m.store.len() + 1,
{
    if m.tasks.len() > 0 {
        let task = m.tasks.last();
        let rest = State { tasks: m.tasks.drop_last(), ..m };
        assert(m.tasks =~= rest.tasks.push(task));
        match task {
            TaskView::Leave(e) => {
                lemma_ways_enter(rest.tasks, e, m.env);
                lemma_released_is_ok(m.store, m.env.index, e.index);
            },
            TaskView::Resume(e) => {
                lemma_ways_enter(rest.tasks, e, m.env);
                lemma_released_is_ok(m.store, m.env.index, e.index);
            },
            _ => {
                lemma_ways_push(rest.tasks, task, m.env);
                assert(sound(rest));
                match task {
                    TaskView::Execute(s) => {
                        lemma_executed_is_sound(rest, s);
                    },
                    TaskView::Evaluate(e) => {
                        lemma_evaluated_is_sound(rest, e);
                    },
                    TaskView::Unary(operator) => {
                        lemma_top_is_ok(rest);
                        lemma_applied_is_sound(
                            without_value(rest),
                            unary_outcome(operator, top_value(rest)),
                        );
                    },
                    TaskView::Binary(operator) => {
                        lemma_top_is_ok(rest);
                        lemma_top_is_ok(without_value(rest));
                        lemma_applied_is_sound(
                            without_value(without_value(rest)),
                            binary_outcome(
                                operator,
                                top_value(without_value(rest)),
                                top_value(rest),
                            ),
                        );
                    },
                    TaskView::Logic(operator, right) => {
                        lemma_top_is_ok(rest);
                        lemma_task_is_sound(without_value(rest), TaskView::Evaluate(right));
                    },
                    TaskView::Assign(id, name) => {
                        lemma_assigned_is_sound(rest, id, name);
                    },
                    TaskView::Invoke(paren, count) => {
                        lemma_invoked_is_sound(rest, paren, count, millis);
                    },
                    TaskView::Discard => {
                        lemma_top_is_ok(rest);
                    },
                    TaskView::Print => {
                        lemma_top_is_ok(rest);
                    },
                    TaskView::Define(name) => {
                        lemma_top_is_ok(rest);
                        let popped = without_value(rest);
                        lemma_bound_is_ok(rest.store, rest.env.index, name.lexeme, top_value(rest));
                        lemma_grown_keeps_values(
                            rest.store,
                            bound(rest.store, rest.env.index, name.lexeme, top_value(rest)),
                            popped.values,
                        );
                    },
                    TaskView::Branch(then_branch, else_branch) => {
                        lemma_top_is_ok(rest);
                        lemma_task_is_sound(without_value(rest), TaskView::Execute(then_branch));
                        match else_branch {
                            Some(e) => {
                                lemma_task_is_sound(without_value(rest), TaskView::Execute(e));
                            },
                            None => {},
                        }
                    },
                    TaskView::Loop(condition, body) => {
                        lemma_top_is_ok(rest);
                        let again = TaskView::Execute(
                            StmtView::While { condition, body: Box::new(body) },
                        );
                        lemma_task_is_sound(without_value(rest), again);
                        lemma_task_is_sound(
                            with_task(without_value(rest), again),
                            TaskView::Execute(body),
                        );
                    },
                    TaskView::Return => {
                        lemma_returned_is_sound(rest);
                    },
                    _ => {},
                }
            },
        }
    }
}

/// A run from a state that is in order ends in a state that is in order,
/// as long as the store has room for the environments that the run may
/// make: one for each step.
pub proof fn lemma_run_keeps_sound(m: State, budget: nat, millis: i64)
    requires
        sound(m),
        m.store.len() + budget <= usize::MAX,
    ensures
        sound(run_spec(m, budget, millis).0),
        run_spec(m, budget, millis).0.store.len() <= m.store.len() + budget,
    decreases budget,
{
    if budget > 0 {
        lemma_step_keeps_sound(m, millis);
        let (next, signal) = step_spec(m, millis);
        if signal is Continue {
            lemma_run_keeps_sound(next, (budget - 1) as nat, millis);
        }
    }
}

} // verus!
