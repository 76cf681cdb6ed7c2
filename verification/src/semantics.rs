use vstd::prelude::*;
use crate::error::EvalError;
use crate::expression::{CallView, ExpressionView, FunctionView, ValueView};
use crate::number::{Number, Operator};

verus! {

/// What an evaluation comes to: a number, or the reason why there is none.
pub type Outcome = Result<Number, EvalError>;

/// What the outside answers when it is asked.
///
/// `compute` stands for the arithmetic of the machine: the result of an
/// operator on two numbers. `invoke` stands for the callback capabilities: what
/// the callback with a given name answers to a given parameter list. `read`
/// stands for the values that live outside: what the value with a given name
/// reads as.
pub struct Oracle {
    pub compute: spec_fn(Operator, Number, Number) -> Number,
    pub invoke: spec_fn(u64, Seq<Number>) -> Result<Number, capnp::Error>,
    pub read: spec_fn(u64) -> Result<Number, capnp::Error>,
}

/// An answer from outside as an outcome: its failure becomes a
/// [`EvalError::SubstrateFailure`] that holds it unchanged.
pub open spec fn lift(answer: Result<Number, capnp::Error>) -> Outcome {
    match answer {
        Ok(v) => Ok(v),
        Err(e) => Err(EvalError::SubstrateFailure(e)),
    }
}

/// The parameter at position `index` of the list in scope, if there is a list
/// and it is that long.
pub open spec fn parameter(params: Option<Seq<Number>>, index: u32) -> Outcome {
    if params is Some && index < params->0.len() {
        Ok(params->0[index as int])
    } else {
        Err(EvalError::BadParameterIndex { index })
    }
}

/// The error of a call with `actual` parameters of a function that takes
/// `expected`.
pub open spec fn arity_mismatch(expected: u32, actual: nat) -> EvalError {
    EvalError::ArityMismatch { expected, actual: actual as usize }
}

/// The value of the expression `e` where `params` is the parameter list in
/// scope and the outside answers as `o` says.
pub open spec fn eval(e: ExpressionView, params: Option<Seq<Number>>, o: Oracle) -> Outcome
    decreases e, 0nat,
{
    match e {
        ExpressionView::Literal(v) => Ok(v),
        ExpressionView::PreviousResult(ValueView::Held(v)) => Ok(v),
        ExpressionView::PreviousResult(ValueView::Remote(id)) => lift((o.read)(id)),
        ExpressionView::Parameter(index) => parameter(params, index),
        ExpressionView::Call(c) => eval_call(c, Seq::empty(), params, o),
        ExpressionView::Unrecognized(tag) => Err(EvalError::MalformedExpression { tag }),
    }
}

/// The value of the call `c` once its first arguments have come to `values`:
/// the remaining arguments are evaluated from left to right, the first failure
/// among them is the failure of the call, and with all of them there the
/// function is applied to the values in the order of the arguments.
pub open spec fn eval_call(
    c: CallView,
    values: Seq<Number>,
    params: Option<Seq<Number>>,
    o: Oracle,
) -> Outcome
    decreases c, c.params.len() - values.len(),
{
    if values.len() >= c.params.len() {
        apply(c.function, values, o)
    } else {
        match eval(c.params[values.len() as int], params, o) {
            Ok(v) => eval_call(c, values.push(v), params, o),
            Err(e) => Err(e),
        }
    }
}

/// The result of the function `f` on the parameters `values`.
pub open spec fn apply(f: FunctionView, values: Seq<Number>, o: Oracle) -> Outcome
    decreases f, 0nat,
{
    match f {
        FunctionView::Operator(op) => {
            if values.len() == 2 {
                Ok((o.compute)(op, values[0], values[1]))
            } else {
                Err(arity_mismatch(2, values.len()))
            }
        },
        FunctionView::UserDefined { param_count, body } => {
            if values.len() == param_count {
                eval(*body, Some(values), o)
            } else {
                Err(arity_mismatch(param_count, values.len()))
            }
        },
        FunctionView::Callback(id) => lift((o.invoke)(id, values)),
    }
}

/// The values of the first `n` of the expressions `args`, in their order, or
/// the failure of the first among them that fails.
pub open spec fn eval_arguments(
    args: Seq<ExpressionView>,
    n: nat,
    params: Option<Seq<Number>>,
    o: Oracle,
) -> Result<Seq<Number>, EvalError>
    decreases n,
{
    if n == 0 {
        Ok(Seq::empty())
    } else {
        match eval_arguments(args, (n - 1) as nat, params, o) {
            Err(e) => Err(e),
            Ok(values) => match eval(args[n - 1], params, o) {
                Ok(v) => Ok(values.push(v)),
                Err(e) => Err(e),
            },
        }
    }
}

/// With the first `n` arguments of `c` evaluated to `values`, the rest of the
/// call is the whole call; with a failure among them, the call fails so.
proof fn lemma_eval_call_from(c: CallView, n: nat, params: Option<Seq<Number>>, o: Oracle)
    requires
        n <= c.params.len(),
    ensures
        match eval_arguments(c.params, n, params, o) {
            Ok(values) => values.len() == n && eval_call(c, Seq::empty(), params, o) == eval_call(
                c,
                values,
                params,
                o,
            ),
            Err(e) => eval_call(c, Seq::empty(), params, o) == Err::<Number, EvalError>(e),
        },
    decreases n,
{
    if n > 0 {
        lemma_eval_call_from(c, (n - 1) as nat, params, o);
    }
}

/// A call evaluates its arguments in order, fails with the first failure among
/// them, and otherwise applies its function to all their values.
pub proof fn lemma_eval_call_by_arguments(c: CallView, params: Option<Seq<Number>>, o: Oracle)
    ensures
        eval(ExpressionView::Call(c), params, o) == match eval_arguments(
            c.params,
            c.params.len(),
            params,
            o,
        ) {
            Ok(values) => apply(c.function, values, o),
            Err(e) => Err(e),
        },
{
    lemma_eval_call_from(c, c.params.len(), params, o);
}

} // verus!
