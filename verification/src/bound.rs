use vstd::prelude::*;
use crate::expression::{CallView, ExpressionView, FunctionView, ValueView};
use crate::number::Number;
use crate::semantics::Outcome;
use crate::task::{
    all_values, asked_at, resume, settle, start, start_apply, start_args, start_call, values_of,
    TaskView,
};

verus! {

/// How many questions the evaluation of `e` can raise at most.
pub open spec fn expression_cost(e: ExpressionView) -> nat
    decreases e, 0nat,
{
    match e {
        ExpressionView::Call(c) => function_cost(c.function) + arguments_cost(c, c.params.len()),
        ExpressionView::PreviousResult(ValueView::Remote(_)) => 1,
        _ => 0,
    }
}

/// How many questions the first `n` arguments of `c` can raise at most.
pub open spec fn arguments_cost(c: CallView, n: nat) -> nat
    decreases c, n,
{
    if n == 0 || n > c.params.len() {
        0
    } else {
        arguments_cost(c, (n - 1) as nat) + expression_cost(c.params[n - 1])
    }
}

/// How many questions a call of `f` can raise at most: one for an operator
/// or a callback, those of its body for a defined function.
pub open spec fn function_cost(f: FunctionView) -> nat
    decreases f, 0nat,
{
    match f {
        FunctionView::UserDefined { body, .. } => expression_cost(*body),
        _ => 1,
    }
}

/// How many answers the evaluation `task` can take at most before it is
/// finished.
pub open spec fn task_cost(task: TaskView) -> nat
    decreases task, 0nat,
{
    match task {
        TaskView::Value(_) => 0,
        TaskView::Asked(_) => 1,
        TaskView::Call { call, slots, .. } => function_cost(call.function) + slots_cost(
            slots,
            slots.len(),
        ),
    }
}

/// How many answers the first `n` of the parts `slots` can take at most.
pub open spec fn slots_cost(slots: Seq<TaskView>, n: nat) -> nat
    decreases slots, n,
{
    if n == 0 || n > slots.len() {
        0
    } else {
        slots_cost(slots, (n - 1) as nat) + task_cost(slots[n - 1])
    }
}

proof fn lemma_slots_cost_agree(a: Seq<TaskView>, b: Seq<TaskView>, n: nat)
    requires
        n <= a.len(),
        n <= b.len(),
        forall|i: int| 0 <= i < n ==> #[trigger] a[i] == b[i],
    ensures
        slots_cost(a, n) == slots_cost(b, n),
    decreases n,
{
    if n > 0 {
        lemma_slots_cost_agree(a, b, (n - 1) as nat);
        assert(a[n - 1] == b[n - 1]);
    }
}

proof fn lemma_slots_cost_update(slots: Seq<TaskView>, i: int, t: TaskView, n: nat)
    requires
        0 <= i < n <= slots.len(),
    ensures
        slots_cost(slots.update(i, t), n) + task_cost(slots[i]) == slots_cost(slots, n) + task_cost(
            t,
        ),
    decreases n,
{
    let next = slots.update(i, t);
    if i == n - 1 {
        lemma_slots_cost_agree(next, slots, (n - 1) as nat);
    } else {
        lemma_slots_cost_update(slots, i, t, (n - 1) as nat);
        assert(next[n - 1] == slots[n - 1]);
    }
}

/// An evaluation that was started can take no more answers than its
/// expression can raise questions.
pub proof fn lemma_start_cost(e: ExpressionView, params: Option<Seq<Number>>, path: Seq<nat>)
    ensures
        start(e, params, path).task matches Ok(task) ==> task_cost(task) <= expression_cost(e),
    decreases e, 0nat,
{
    match e {
        ExpressionView::Call(c) => {
            let n = c.params.len();
            lemma_start_args_cost(c, n, params, path);
            match start_args(c, n, params, path).slots {
                Ok(slots) => {
                    if all_values(slots) {
                        lemma_start_apply_cost(c.function, values_of(slots), path);
                    }
                },
                Err(_) => {},
            }
        },
        _ => {},
    }
}

/// The same of the arguments of a call.
pub proof fn lemma_start_args_cost(
    c: CallView,
    n: nat,
    params: Option<Seq<Number>>,
    path: Seq<nat>,
)
    requires
        n <= c.params.len(),
    ensures
        start_args(c, n, params, path).slots matches Ok(slots) ==> slots.len() == n && slots_cost(
            slots,
            n,
        ) <= arguments_cost(c, n),
    decreases c, n,
{
    if n > 0 {
        lemma_start_args_cost(c, (n - 1) as nat, params, path);
        match start_args(c, (n - 1) as nat, params, path).slots {
            Ok(slots) => {
                let at = path.push((n - 1) as nat);
                lemma_start_cost(c.params[n - 1], params, at);
                match start(c.params[n - 1], params, at).task {
                    Ok(task) => {
                        let all = slots.push(task);
                        lemma_slots_cost_agree(all, slots, (n - 1) as nat);
                        assert(all[n - 1] == task);
                    },
                    Err(_) => {},
                }
            },
            Err(_) => {},
        }
    }
}

/// The same of the application of a function.
pub proof fn lemma_start_apply_cost(f: FunctionView, values: Seq<Number>, path: Seq<nat>)
    ensures
        start_apply(f, values, path).task matches Ok(task) ==> task_cost(task) <= function_cost(f),
    decreases f, 0nat,
{
    match f {
        FunctionView::UserDefined { param_count, body } => {
            if values.len() == param_count {
                lemma_start_cost(*body, Some(values), path);
            }
        },
        _ => {},
    }
}

/// Every answer to a question that waits brings the evaluation nearer to its
/// end: an evaluation of `e` is finished after `expression_cost(e)` answers
/// at the latest.
pub proof fn lemma_resume_cost(task: TaskView, path: Seq<nat>, depth: nat, given: Outcome)
    requires
        asked_at(task, path, depth) is Some,
    ensures
        resume(task, path, depth, given).task matches Ok(next) ==> task_cost(next) < task_cost(
            task,
        ),
    decreases task,
{
    match task {
        TaskView::Call { call, params, slots } => {
            let i = path[depth as int] as int;
            let n = slots.len();
            lemma_resume_cost(slots[i], path, depth + 1, given);
            match resume(slots[i], path, depth + 1, given).task {
                Ok(t) => {
                    let next = slots.update(i, t);
                    lemma_slots_cost_update(slots, i, t, n);
                    if all_values(next) {
                        lemma_start_apply_cost(
                            call.function,
                            values_of(next),
                            path.take(depth as int),
                        );
                    }
                },
                Err(_) => {},
            }
        },
        _ => {},
    }
}

} // verus!
