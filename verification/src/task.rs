use vstd::prelude::*;
use crate::error::EvalError;
use crate::expression::{CallView, ExpressionView, FunctionView, ValueView};
use crate::number::{Number, Operator};
use crate::semantics::{
    apply, arity_mismatch, eval, eval_arguments, lemma_eval_call_by_arguments, lift, parameter,
    Oracle, Outcome,
};

verus! {

/// What an evaluation asks of the outside.
pub enum AskView {
    /// The result of `op` on `left` and `right`.
    Compute { op: Operator, left: Number, right: Number },
    /// The answer of the callback `callback` to `params`.
    Invoke { callback: u64, params: Seq<Number> },
    /// What the value `value` reads as.
    Read { value: u64 },
}

/// A question to the outside, with the place in the evaluation that waits for
/// the answer: the positions of the arguments that lead to it from the root.
pub struct RequestView {
    pub path: Seq<nat>,
    pub ask: AskView,
}

/// An evaluation under way, as a tree.
pub enum TaskView {
    /// This part has its number.
    Value(Number),
    /// This part waits for the answer to a question.
    Asked(AskView),
    /// A call that waits for some of its arguments; `slots` holds one part for
    /// each argument, `params` is the parameter list in scope.
    Call { call: CallView, params: Option<Seq<Number>>, slots: Seq<TaskView> },
}

/// What a move of an evaluation gives: the evaluation after it, or the
/// failure that ends it, and the questions that the move has raised.
pub struct Move {
    pub task: Result<TaskView, EvalError>,
    pub requests: Seq<RequestView>,
}

/// The arguments of a call after they were started: a part for each, or the
/// failure of the first that failed at once, and the questions raised.
pub struct ArgsMove {
    pub slots: Result<Seq<TaskView>, EvalError>,
    pub requests: Seq<RequestView>,
}

/// A move that raises no question and leaves `task`.
pub open spec fn settled(task: TaskView) -> Move {
    Move { task: Ok(task), requests: Seq::empty() }
}

/// A move that raises the question `ask` at the place `path` and leaves it
/// waiting there.
pub open spec fn asked(ask: AskView, path: Seq<nat>) -> Move {
    Move { task: Ok(TaskView::Asked(ask)), requests: seq![RequestView { path, ask }] }
}

/// A move that ends the evaluation with the failure `e`.
pub open spec fn failed(e: EvalError) -> Move {
    Move { task: Err(e), requests: Seq::empty() }
}

/// The move `s` after the questions `before` were raised: a failure drops
/// them, since nobody waits for their answers any more.
pub open spec fn after(before: Seq<RequestView>, s: Move) -> Move {
    match s.task {
        Ok(task) => Move { task: Ok(task), requests: before + s.requests },
        Err(e) => failed(e),
    }
}

/// Whether every part has its number.
pub open spec fn all_values(slots: Seq<TaskView>) -> bool {
    forall|i: int| 0 <= i < slots.len() ==> (#[trigger] slots[i]) is Value
}

/// The numbers of parts that all have one, in their order.
pub open spec fn values_of(slots: Seq<TaskView>) -> Seq<Number> {
    Seq::new(slots.len(), |i: int| slots[i]->Value_0)
}

/// Starts the evaluation of `e` at the place `path`, with `params` as the
/// parameter list in scope.
pub open spec fn start(e: ExpressionView, params: Option<Seq<Number>>, path: Seq<nat>) -> Move
    decreases e, 0nat,
{
    match e {
        ExpressionView::Literal(v) => settled(TaskView::Value(v)),
        ExpressionView::PreviousResult(ValueView::Held(v)) => settled(TaskView::Value(v)),
        ExpressionView::PreviousResult(ValueView::Remote(id)) => asked(
            AskView::Read { value: id },
            path,
        ),
        ExpressionView::Parameter(index) => match parameter(params, index) {
            Ok(v) => settled(TaskView::Value(v)),
            Err(x) => failed(x),
        },
        ExpressionView::Call(c) => start_call(c, params, path),
        ExpressionView::Unrecognized(tag) => failed(EvalError::MalformedExpression { tag }),
    }
}

/// Starts the call `c`: all its arguments, from the left, each at its
/// position below `path`; then, if they all have their numbers, the function.
pub open spec fn start_call(c: CallView, params: Option<Seq<Number>>, path: Seq<nat>) -> Move
    decreases c, c.params.len() + 1,
{
    let args = start_args(c, c.params.len(), params, path);
    match args.slots {
        Ok(slots) => after(args.requests, settle(c, params, slots, path)),
        Err(x) => failed(x),
    }
}

/// Starts the first `n` arguments of the call `c`.
pub open spec fn start_args(
    c: CallView,
    n: nat,
    params: Option<Seq<Number>>,
    path: Seq<nat>,
) -> ArgsMove
    decreases c, n,
{
    if n == 0 || n > c.params.len() {
        ArgsMove { slots: Ok(Seq::empty()), requests: Seq::empty() }
    } else {
        let before = start_args(c, (n - 1) as nat, params, path);
        match before.slots {
            Ok(slots) => {
                let s = start(c.params[n - 1], params, path.push((n - 1) as nat));
                match s.task {
                    Ok(task) => ArgsMove {
                        slots: Ok(slots.push(task)),
                        requests: before.requests + s.requests,
                    },
                    Err(x) => ArgsMove { slots: Err(x), requests: Seq::empty() },
                }
            },
            Err(x) => ArgsMove { slots: Err(x), requests: Seq::empty() },
        }
    }
}

/// The call `c` with the parts `slots` for its arguments: if they all have
/// their numbers, the function is applied to them; if not, the call waits.
pub open spec fn settle(
    c: CallView,
    params: Option<Seq<Number>>,
    slots: Seq<TaskView>,
    path: Seq<nat>,
) -> Move
    decreases c, 0nat,
{
    if all_values(slots) {
        start_apply(c.function, values_of(slots), path)
    } else {
        settled(TaskView::Call { call: c, params, slots })
    }
}

/// Starts the application of `f` to `values` at the place `path`.
pub open spec fn start_apply(f: FunctionView, values: Seq<Number>, path: Seq<nat>) -> Move
    decreases f, 0nat,
{
    match f {
        FunctionView::Operator(op) => {
            if values.len() == 2 {
                asked(AskView::Compute { op, left: values[0], right: values[1] }, path)
            } else {
                failed(arity_mismatch(2, values.len()))
            }
        },
        FunctionView::UserDefined { param_count, body } => {
            if values.len() == param_count {
                start(*body, Some(values), path)
            } else {
                failed(arity_mismatch(param_count, values.len()))
            }
        },
        FunctionView::Callback(id) => asked(AskView::Invoke { callback: id, params: values }, path),
    }
}

/// The question that waits at the place `path` of `task`, if one does; `depth`
/// is how much of `path` lies above `task`.
pub open spec fn asked_at(task: TaskView, path: Seq<nat>, depth: nat) -> Option<AskView>
    decreases task,
{
    match task {
        TaskView::Value(_) => None,
        TaskView::Asked(ask) => if depth == path.len() {
            Some(ask)
        } else {
            None
        },
        TaskView::Call { slots, .. } => {
            if depth < path.len() && path[depth as int] < slots.len() {
                asked_at(slots[path[depth as int] as int], path, depth + 1)
            } else {
                None
            }
        },
    }
}

/// Hands `answer` to the question that waits at the place `path` of `task`.
/// A number takes the place of the question, and every call above it whose
/// arguments are then complete applies its function. A failure ends the
/// evaluation. Where no question waits at `path`, nothing changes.
pub open spec fn resume(task: TaskView, path: Seq<nat>, depth: nat, answer: Outcome) -> Move
    decreases task,
{
    match task {
        TaskView::Value(_) => settled(task),
        TaskView::Asked(_) => {
            if depth == path.len() {
                match answer {
                    Ok(v) => settled(TaskView::Value(v)),
                    Err(x) => failed(x),
                }
            } else {
                settled(task)
            }
        },
        TaskView::Call { call, params, slots } => {
            if depth < path.len() && path[depth as int] < slots.len() {
                let i = path[depth as int] as int;
                let inner = resume(slots[i], path, depth + 1, answer);
                match inner.task {
                    Ok(t) => after(
                        inner.requests,
                        settle(call, params, slots.update(i, t), path.take(depth as int)),
                    ),
                    Err(x) => failed(x),
                }
            } else {
                settled(task)
            }
        },
    }
}

/// What an evaluation says when it stops.
pub enum StepView {
    /// It waits for answers; these are the questions that it has newly raised.
    Waiting(Seq<RequestView>),
    /// It is finished, with a number or with the reason why there is none.
    Finished(Outcome),
}

/// An evaluation after a move, and what it says: it is finished where the
/// move failed or left a number for the whole, and waits otherwise.
pub open spec fn moved(s: Move) -> (Option<TaskView>, StepView) {
    match s.task {
        Err(x) => (None, StepView::Finished(Err(x))),
        Ok(TaskView::Value(v)) => (None, StepView::Finished(Ok(v))),
        Ok(task) => (Some(task), StepView::Waiting(s.requests)),
    }
}

/// What the outside, answering as `o` says, answers to `ask`.
pub open spec fn answer(ask: AskView, o: Oracle) -> Outcome {
    match ask {
        AskView::Compute { op, left, right } => Ok((o.compute)(op, left, right)),
        AskView::Invoke { callback, params } => lift((o.invoke)(callback, params)),
        AskView::Read { value } => lift((o.read)(value)),
    }
}

/// The result of `f` on the numbers `values`, or the failure that kept them
/// from being there.
pub open spec fn applied(f: FunctionView, values: Result<Seq<Number>, EvalError>, o: Oracle) -> Outcome {
    match values {
        Ok(list) => apply(f, list, o),
        Err(x) => Err(x),
    }
}

/// What the evaluation `task` comes to when the outside answers every
/// question as `o` says and a call fails as the leftmost of its failing
/// arguments.
pub open spec fn meaning(task: TaskView, o: Oracle) -> Outcome
    decreases task, 0nat,
{
    match task {
        TaskView::Value(v) => Ok(v),
        TaskView::Asked(ask) => answer(ask, o),
        TaskView::Call { call, slots, .. } => applied(
            call.function,
            meanings(slots, slots.len(), o),
            o,
        ),
    }
}

/// What the first `n` of the parts `slots` come to, in their order, or the
/// failure of the leftmost among them that fails.
pub open spec fn meanings(slots: Seq<TaskView>, n: nat, o: Oracle) -> Result<Seq<Number>, EvalError>
    decreases slots, n,
{
    if n == 0 || n > slots.len() {
        Ok(Seq::empty())
    } else {
        match meanings(slots, (n - 1) as nat, o) {
            Err(x) => Err(x),
            Ok(values) => match meaning(slots[n - 1], o) {
                Ok(v) => Ok(values.push(v)),
                Err(x) => Err(x),
            },
        }
    }
}

/// What the first `n` parts come to depends on these parts alone.
pub proof fn lemma_meanings_agree(a: Seq<TaskView>, b: Seq<TaskView>, n: nat, o: Oracle)
    requires
        n <= a.len(),
        n <= b.len(),
        forall|i: int| 0 <= i < n ==> meaning(#[trigger] a[i], o) == meaning(b[i], o),
    ensures
        meanings(a, n, o) == meanings(b, n, o),
    decreases n,
{
    if n > 0 {
        lemma_meanings_agree(a, b, (n - 1) as nat, o);
        assert(meaning(a[n - 1], o) == meaning(b[n - 1], o));
    }
}

/// Parts that all have their numbers come to these numbers.
pub proof fn lemma_meanings_of_values(slots: Seq<TaskView>, n: nat, o: Oracle)
    requires
        all_values(slots),
        n <= slots.len(),
    ensures
        meanings(slots, n, o) == Ok::<Seq<Number>, EvalError>(values_of(slots).take(n as int)),
    decreases n,
{
    if n > 0 {
        lemma_meanings_of_values(slots, (n - 1) as nat, o);
        let last = slots[n - 1];
        assert(last is Value);
        assert(meaning(last, o) == Ok::<Number, EvalError>(last->Value_0));
        assert(values_of(slots).take(n as int) =~= values_of(slots).take(n - 1).push(
            last->Value_0,
        ));
        assert(meanings(slots, n, o) == Ok::<Seq<Number>, EvalError>(
            values_of(slots).take(n - 1).push(last->Value_0),
        ));
    } else {
        assert(values_of(slots).take(0) =~= Seq::<Number>::empty());
    }
}

/// Where one of the first `n` parts comes to a failure, they come to one.
pub proof fn lemma_meanings_fail(slots: Seq<TaskView>, n: nat, i: int, o: Oracle)
    requires
        0 <= i < n <= slots.len(),
        meaning(slots[i], o) is Err,
    ensures
        meanings(slots, n, o) is Err,
    decreases n,
{
    if i < n - 1 {
        lemma_meanings_fail(slots, (n - 1) as nat, i, o);
    }
}

/// An evaluation that was started comes to the value of its expression; one
/// that failed at once belongs to an expression whose value is a failure.
pub proof fn lemma_start_meaning(
    e: ExpressionView,
    params: Option<Seq<Number>>,
    path: Seq<nat>,
    o: Oracle,
)
    ensures
        match start(e, params, path).task {
            Ok(task) => meaning(task, o) == eval(e, params, o),
            Err(_) => eval(e, params, o) is Err,
        },
    decreases e, 0nat,
{
    match e {
        ExpressionView::Call(c) => {
            lemma_start_call_meaning(c, params, path, o);
        },
        _ => {},
    }
}

/// The same of a call.
pub proof fn lemma_start_call_meaning(
    c: CallView,
    params: Option<Seq<Number>>,
    path: Seq<nat>,
    o: Oracle,
)
    ensures
        match start_call(c, params, path).task {
            Ok(task) => meaning(task, o) == eval(ExpressionView::Call(c), params, o),
            Err(_) => eval(ExpressionView::Call(c), params, o) is Err,
        },
    decreases c, c.params.len() + 1,
{
    let n = c.params.len();
    lemma_start_args_meaning(c, n, params, path, o);
    lemma_eval_call_by_arguments(c, params, o);
    let args = start_args(c, n, params, path);
    match args.slots {
        Ok(slots) => {
            lemma_settle_meaning(c, params, slots, path, o);
        },
        Err(_) => {},
    }
}

/// The arguments of a call that were started come to their values.
pub proof fn lemma_start_args_meaning(
    c: CallView,
    n: nat,
    params: Option<Seq<Number>>,
    path: Seq<nat>,
    o: Oracle,
)
    requires
        n <= c.params.len(),
    ensures
        match start_args(c, n, params, path).slots {
            Ok(slots) => slots.len() == n && meanings(slots, n, o) == eval_arguments(
                c.params,
                n,
                params,
                o,
            ),
            Err(_) => eval_arguments(c.params, n, params, o) is Err,
        },
    decreases c, n,
{
    if n > 0 {
        lemma_start_args_meaning(c, (n - 1) as nat, params, path, o);
        let before = start_args(c, (n - 1) as nat, params, path);
        match before.slots {
            Ok(slots) => {
                let arg = c.params[n - 1];
                let at = path.push((n - 1) as nat);
                lemma_start_meaning(arg, params, at, o);
                match start(arg, params, at).task {
                    Ok(task) => {
                        let all = slots.push(task);
                        assert forall|i: int| 0 <= i < n - 1 implies meaning(
                            #[trigger] all[i],
                            o,
                        ) == meaning(slots[i], o) by {}
                        lemma_meanings_agree(all, slots, (n - 1) as nat, o);
                        assert(all[n - 1] == task);
                    },
                    Err(_) => {},
                }
            },
            Err(_) => {},
        }
    }
}

/// A call that was settled comes to the result of its function on what its
/// arguments come to.
pub proof fn lemma_settle_meaning(
    c: CallView,
    params: Option<Seq<Number>>,
    slots: Seq<TaskView>,
    path: Seq<nat>,
    o: Oracle,
)
    ensures
        match settle(c, params, slots, path).task {
            Ok(task) => meaning(task, o) == applied(c.function, meanings(slots, slots.len(), o), o),
            Err(_) => applied(c.function, meanings(slots, slots.len(), o), o) is Err,
        },
    decreases c, 0nat,
{
    if all_values(slots) {
        lemma_meanings_of_values(slots, slots.len(), o);
        assert(values_of(slots).take(slots.len() as int) =~= values_of(slots));
        lemma_start_apply_meaning(c.function, values_of(slots), path, o);
    }
}

/// A function that was applied comes to its result.
pub proof fn lemma_start_apply_meaning(
    f: FunctionView,
    values: Seq<Number>,
    path: Seq<nat>,
    o: Oracle,
)
    ensures
        match start_apply(f, values, path).task {
            Ok(task) => meaning(task, o) == apply(f, values, o),
            Err(_) => apply(f, values, o) is Err,
        },
    decreases f, 0nat,
{
    match f {
        FunctionView::UserDefined { param_count, body } => {
            if values.len() == param_count {
                lemma_start_meaning(*body, Some(values), path, o);
            }
        },
        _ => {},
    }
}

/// An evaluation that is handed the answer of the outside to one of its
/// questions comes to what it came to before; where the answer ends it, it
/// came to a failure before.
pub proof fn lemma_resume_meaning(
    task: TaskView,
    path: Seq<nat>,
    depth: nat,
    given: Outcome,
    o: Oracle,
)
    requires
        asked_at(task, path, depth) matches Some(ask) && given == answer(ask, o),
    ensures
        match resume(task, path, depth, given).task {
            Ok(next) => meaning(next, o) == meaning(task, o),
            Err(_) => meaning(task, o) is Err,
        },
    decreases task,
{
    match task {
        TaskView::Call { call, params, slots } => {
            let i = path[depth as int] as int;
            let n = slots.len();
            lemma_resume_meaning(slots[i], path, depth + 1, given, o);
            let inner = resume(slots[i], path, depth + 1, given);
            match inner.task {
                Ok(t) => {
                    let next = slots.update(i, t);
                    assert forall|j: int| 0 <= j < n implies meaning(#[trigger] next[j], o)
                        == meaning(slots[j], o) by {}
                    lemma_meanings_agree(next, slots, n, o);
                    lemma_settle_meaning(call, params, next, path.take(depth as int), o);
                },
                Err(_) => {
                    lemma_meanings_fail(slots, n, i, o);
                },
            }
        },
        _ => {},
    }
}

} // verus!
