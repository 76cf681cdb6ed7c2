use vstd::prelude::*;
use crate::error::EvalError;
use crate::evaluator::{evaluate_impl, Evaluation, Step};
use crate::expression::{Expression, Function, FunctionImpl, FunctionView, OperatorImpl, ValueImpl};
use crate::number::{Number, Operator};
use crate::task::{moved, start};

verus! {

/// The calculator: it evaluates expressions, defines functions and hands out
/// the built-in operators. It holds no state, so every call stands alone.
#[derive(Debug, Clone, Copy)]
pub struct CalculatorImpl;

impl CalculatorImpl {
    /// Starts the evaluation of `expression` with no parameter list in scope.
    pub fn evaluate<'a>(&self, expression: &'a Expression) -> (r: (Evaluation<'a>, Step))
        ensures
            (r.0@, r.1@) == moved(start(expression@, None, Seq::empty())),
    {
        evaluate_impl(expression, None)
    }

    /// What the one who asked for an evaluation gets once it is finished with
    /// `outcome`: a value that holds the number, or the failure and no value.
    pub fn value(&self, outcome: Result<Number, EvalError>) -> (r: Result<ValueImpl, EvalError>)
        ensures
            match outcome {
                Ok(v) => r is Ok && r->Ok_0@ == v,
                Err(e) => r == Err::<ValueImpl, EvalError>(e),
            },
    {
        match outcome {
            Ok(v) => Ok(ValueImpl::new(v)),
            Err(e) => Err(e),
        }
    }

    /// Defines the function of `param_count` parameters whose value is that of
    /// `body`. Nothing is asked of `body` here: what is wrong with it shows
    /// when the function is called. The function holds a copy of `body`.
    pub fn def_function(&self, param_count: u32, body: &Expression) -> (func: Function)
        ensures
            func@ == (FunctionView::UserDefined { param_count, body: Box::new(body@) }),
    {
        Function::UserDefined(FunctionImpl::new(param_count, body))
    }

    /// The built-in operator `op` as a function.
    pub fn get_operator(&self, op: Operator) -> (func: Function)
        ensures
            func@ == FunctionView::Operator(op),
    {
        Function::Operator(OperatorImpl { op })
    }
}

} // verus!
