use vstd::prelude::*;
use crate::error::EvalError;
use crate::number::Number;
use crate::semantics::arity_mismatch;

verus! {

/// The power function, as a caller of the calculator offers it for a
/// callback: it takes a base and an exponent.
#[derive(Debug, Clone, Copy)]
pub struct PowerFunction;

/// What is left to do of a call of the power function: to raise `base` to
/// `exponent`.
#[derive(Debug, Clone, Copy, PartialEq, Eq, Structural)]
pub struct Power {
    pub base: Number,
    pub exponent: Number,
}

/// What a call of the power function on `params` comes to.
pub open spec fn power_call(params: Seq<Number>) -> Result<Power, EvalError> {
    if params.len() == 2 {
        Ok(Power { base: params[0], exponent: params[1] })
    } else {
        Err(arity_mismatch(2, params.len()))
    }
}

impl PowerFunction {
    /// The power function on `params`: with two of them, the first is the
    /// base and the second the exponent; with any other number, the failure.
    pub fn call(&self, params: &Vec<Number>) -> (r: Result<Power, EvalError>)
        ensures
            r == power_call(params@),
    {
        if params.len() != 2 {
            Err(EvalError::ArityMismatch { expected: 2, actual: params.len() })
        } else {
            Ok(Power { base: params[0], exponent: params[1] })
        }
    }
}

} // verus!
