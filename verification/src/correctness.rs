use vstd::prelude::*;
use crate::error::EvalError;
use crate::expression::{ExpressionView, FunctionView, ValueView};
use crate::number::{Number, Operator};
use crate::semantics::{apply, arity_mismatch, eval, lift, Oracle};
use crate::task::{
    answer, asked, asked_at, failed, lemma_resume_meaning, lemma_start_apply_meaning,
    lemma_start_meaning, meaning, moved, resume, settled, start, start_apply, AskView, StepView,
    TaskView,
};

verus! {

/// The evaluation `task` after the question at `path`, if one waits there,
/// was answered as the outside `o` answers it.
pub open spec fn answered(task: TaskView, path: Seq<nat>, o: Oracle) -> Result<TaskView, EvalError> {
    match asked_at(task, path, 0) {
        Some(ask) => resume(task, path, 0, answer(ask, o)).task,
        None => Ok(task),
    }
}

/// The evaluation `task` after the questions at the places `schedule` were
/// answered as the outside `o` answers them, one after the other in the order
/// of `schedule`, or the failure that ended it on the way.
pub open spec fn driven(task: TaskView, schedule: Seq<Seq<nat>>, o: Oracle) -> Result<
    TaskView,
    EvalError,
>
    decreases schedule.len(),
{
    if schedule.len() == 0 {
        Ok(task)
    } else {
        match answered(task, schedule[0], o) {
            Ok(next) => driven(next, schedule.drop_first(), o),
            Err(x) => Err(x),
        }
    }
}

/// In whatever order its questions are answered, an evaluation comes to what
/// it came to at first; where an answer ends it, it came to a failure.
pub proof fn lemma_driven_meaning(task: TaskView, schedule: Seq<Seq<nat>>, o: Oracle)
    ensures
        match driven(task, schedule, o) {
            Ok(last) => meaning(last, o) == meaning(task, o),
            Err(_) => meaning(task, o) is Err,
        },
    decreases schedule.len(),
{
    if schedule.len() > 0 {
        match asked_at(task, schedule[0], 0) {
            Some(ask) => {
                lemma_resume_meaning(task, schedule[0], 0, answer(ask, o), o);
            },
            None => {},
        }
        match answered(task, schedule[0], o) {
            Ok(next) => {
                lemma_driven_meaning(next, schedule.drop_first(), o);
            },
            Err(_) => {},
        }
    }
}

/// An evaluation of the expression `e` whose questions the outside `o`
/// answers, in whatever order, finishes with nothing but the value of `e`:
/// with a number only if that is the value, and with a failure only if the
/// value is one.
pub proof fn theorem_evaluation_finishes_with_value(
    e: ExpressionView,
    params: Option<Seq<Number>>,
    schedule: Seq<Seq<nat>>,
    o: Oracle,
)
    ensures
        match start(e, params, Seq::empty()).task {
            Ok(task) => match driven(task, schedule, o) {
                Ok(TaskView::Value(v)) => eval(e, params, o) == Ok::<Number, EvalError>(v),
                Ok(_) => true,
                Err(_) => eval(e, params, o) is Err,
            },
            Err(_) => eval(e, params, o) is Err,
        },
{
    lemma_start_meaning(e, params, Seq::empty(), o);
    match start(e, params, Seq::empty()).task {
        Ok(task) => {
            lemma_driven_meaning(task, schedule, o);
        },
        Err(_) => {},
    }
}

/// The same of a call of the function `f` on `values`: it finishes with
/// nothing but the result of `f` on `values`.
pub proof fn theorem_call_finishes_with_result(
    f: FunctionView,
    values: Seq<Number>,
    schedule: Seq<Seq<nat>>,
    o: Oracle,
)
    ensures
        match start_apply(f, values, Seq::empty()).task {
            Ok(task) => match driven(task, schedule, o) {
                Ok(TaskView::Value(v)) => apply(f, values, o) == Ok::<Number, EvalError>(v),
                Ok(_) => true,
                Err(_) => apply(f, values, o) is Err,
            },
            Err(_) => apply(f, values, o) is Err,
        },
{
    lemma_start_apply_meaning(f, values, Seq::empty(), o);
    match start_apply(f, values, Seq::empty()).task {
        Ok(task) => {
            lemma_driven_meaning(task, schedule, o);
        },
        Err(_) => {},
    }
}

/// A literal evaluates to its number: at once, wherever it stands and
/// whatever is in scope.
pub proof fn lemma_literal(v: Number, params: Option<Seq<Number>>, path: Seq<nat>, o: Oracle)
    ensures
        start(ExpressionView::Literal(v), params, path) == settled(TaskView::Value(v)),
        moved(start(ExpressionView::Literal(v), params, path)) == (
            None::<TaskView>,
            StepView::Finished(Ok(v)),
        ),
        eval(ExpressionView::Literal(v), params, o) == Ok::<Number, EvalError>(v),
{
}

/// A previous result that is held here evaluates to its number at once; one
/// that lives outside is asked for, and what it reads as is its value: a
/// number as it is, a failure unchanged inside a substrate failure.
pub proof fn lemma_previous_result(
    v: Number,
    id: u64,
    params: Option<Seq<Number>>,
    path: Seq<nat>,
    o: Oracle,
)
    ensures
        start(ExpressionView::PreviousResult(ValueView::Held(v)), params, path) == settled(
            TaskView::Value(v),
        ),
        eval(ExpressionView::PreviousResult(ValueView::Held(v)), params, o) == Ok::<
            Number,
            EvalError,
        >(v),
        start(ExpressionView::PreviousResult(ValueView::Remote(id)), params, path) == asked(
            AskView::Read { value: id },
            path,
        ),
        eval(ExpressionView::PreviousResult(ValueView::Remote(id)), params, o) == lift(
            (o.read)(id),
        ),
{
}

/// An operator on two numbers asks for its result on them, the first on the
/// left, and the number it is answered is the result of the call. Nothing is
/// a failure here but a failing answer: a division by zero is answered like
/// any other.
pub proof fn lemma_operator_on_two(op: Operator, a: Number, b: Number, x: Number, o: Oracle)
    ensures
        start_apply(FunctionView::Operator(op), seq![a, b], Seq::empty()) == asked(
            AskView::Compute { op, left: a, right: b },
            Seq::empty(),
        ),
        moved(
            resume(
                TaskView::Asked(AskView::Compute { op, left: a, right: b }),
                Seq::empty(),
                0,
                Ok(x),
            ),
        ) == (None::<TaskView>, StepView::Finished(Ok(x))),
        apply(FunctionView::Operator(op), seq![a, b], o) == Ok::<Number, EvalError>(
            (o.compute)(op, a, b),
        ),
{
}

/// The number of parameters that the function `f` takes; of a callback only
/// its owner knows it.
pub open spec fn takes(f: FunctionView) -> u32
    recommends
        !(f is Callback),
{
    match f {
        FunctionView::Operator(_) => 2,
        FunctionView::UserDefined { param_count, .. } => param_count,
        FunctionView::Callback(_) => 0,
    }
}

/// An operator or a defined function that is called with another number of
/// parameters than it takes fails with the mismatch: at once, and without
/// asking anything of the outside.
pub proof fn lemma_wrong_arity(f: FunctionView, values: Seq<Number>, path: Seq<nat>, o: Oracle)
    requires
        !(f is Callback),
        values.len() != takes(f),
    ensures
        start_apply(f, values, path) == failed(arity_mismatch(takes(f), values.len())),
        apply(f, values, o) == Err::<Number, EvalError>(arity_mismatch(takes(f), values.len())),
{
}

/// An operator or a defined function that is called with as many parameters
/// as it takes sees them all, in their order: an operator its two, a defined
/// function the list as the one in scope of its body.
pub proof fn lemma_right_arity(f: FunctionView, values: Seq<Number>, path: Seq<nat>, o: Oracle)
    requires
        !(f is Callback),
        values.len() == takes(f),
    ensures
        f matches FunctionView::Operator(op) ==> apply(f, values, o) == Ok::<Number, EvalError>(
            (o.compute)(op, values[0], values[1]),
        ),
        f matches FunctionView::UserDefined { body, .. } ==> apply(f, values, o) == eval(
            *body,
            Some(values),
            o,
        ) && start_apply(f, values, path) == start(*body, Some(values), path),
{
}

/// A callback is asked with the values of the arguments, in their order, and
/// what it answers is the result of the call: a number as it is, a failure
/// unchanged inside a substrate failure.
pub proof fn lemma_callback(id: u64, values: Seq<Number>, path: Seq<nat>, o: Oracle)
    ensures
        start_apply(FunctionView::Callback(id), values, path) == asked(
            AskView::Invoke { callback: id, params: values },
            path,
        ),
        apply(FunctionView::Callback(id), values, o) == lift((o.invoke)(id, values)),
{
}

} // verus!
